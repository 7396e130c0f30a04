//! Host requirements serialization logic.
//!
//! Converts UI state into the JSON form expected by the job template's
//! `hostRequirements` field.
use vstd::prelude::*;

use crate::json::{
    find_named, get_member, insert_member, insert_member_exec, lemma_array_view,
    lemma_find_named_concat, lemma_insert_member_lookup, lemma_insert_new_member,
    lemma_object_view, member_value, members_model, strings_model, strings_to_json, values_model,
    JsonMember, JsonModel, JsonValue,
};

verus! {

broadcast use vstd::string::group_string_axioms;

/// An object `{"name": name, "anyOf": values}`.
pub open spec fn any_of_model(name: Seq<char>, values: Seq<Seq<char>>) -> JsonModel {
    JsonModel::Object(
        seq![("name"@, JsonModel::String(name)), ("anyOf"@, strings_model(values))],
    )
}

/// An object `{"name": name}`, with `"min"` and `"max"` members for the bounds that are set.
pub open spec fn amount_model(name: Seq<char>, min: Option<i32>, max: Option<i32>) -> JsonModel {
    JsonModel::Object(
        seq![("name"@, JsonModel::String(name))] + bound_member("min"@, min) + bound_member(
            "max"@,
            max,
        ),
    )
}

/// The member `key: v` when the bound is `Some(v)`, and nothing otherwise.
pub open spec fn bound_member(key: Seq<char>, bound: Option<i32>) -> Seq<(Seq<char>, JsonModel)> {
    match bound {
        Some(v) => seq![(key, JsonModel::Number(v as int))],
        None => Seq::empty(),
    }
}

/// The amount entry for a hardware resource: none when neither bound is set.
pub open spec fn hardware_amount_model(name: Seq<char>, min: Option<i32>, max: Option<i32>) -> Seq<
    JsonModel,
> {
    if min is None && max is None {
        Seq::empty()
    } else {
        seq![amount_model(name, min, max)]
    }
}

fn any_of_json(name: &str, values: &Vec<String>) -> (json: JsonValue)
    ensures
        json@ == any_of_model(name@, values.deep_view()),
{
    let members = vec![
        JsonMember { key: "name".to_owned(), value: JsonValue::String(name.to_owned()) },
        JsonMember { key: "anyOf".to_owned(), value: strings_to_json(values) },
    ];
    proof {
        lemma_object_view(members);
        assert(members_model(members@) =~= any_of_model(name@, values.deep_view())->Object_0);
    }
    JsonValue::Object(members)
}

/// Builds `{"name": name}` and sets `"min"` and `"max"` for the bounds that are given.
fn amount_json(name: String, min: Option<i32>, max: Option<i32>) -> (json: JsonValue)
    ensures
        json@ == amount_model(name@, min, max),
{
    proof {
        reveal_strlit("name");
        reveal_strlit("min");
        reveal_strlit("max");
        assert("name"@.len() == 4 && "min"@.len() == 3 && "max"@.len() == 3);
        assert("min"@[1] != "max"@[1]);
    }
    let ghost name_view = name@;
    let mut members = vec![JsonMember { key: "name".to_owned(), value: JsonValue::String(name) }];
    let ghost first = members_model(members@);
    assert(first =~= seq![("name"@, JsonModel::String(name_view))]);
    if let Some(v) = min {
        proof {
            lemma_insert_new_member(members_model(members@), "min"@, JsonModel::Number(v as int));
        }
        insert_member_exec(&mut members, "min".to_owned(), JsonValue::Number(v));
    }
    let ghost second = members_model(members@);
    assert(second =~= first + bound_member("min"@, min));
    if let Some(v) = max {
        proof {
            assert forall|j: int| 0 <= j < second.len() implies second[j].0 != "max"@ by {
                assert(second[j].0 == "name"@ || second[j].0 == "min"@);
            }
            lemma_insert_new_member(second, "max"@, JsonModel::Number(v as int));
        }
        insert_member_exec(&mut members, "max".to_owned(), JsonValue::Number(v));
    }
    assert(members_model(members@) =~= second + bound_member("max"@, max));
    proof {
        lemma_object_view(members);
    }
    JsonValue::Object(members)
}

/// OS requirements (operating system family and CPU architecture).
#[derive(Debug, Clone)]
pub struct OsRequirements {
    pub operating_systems: Vec<String>,
    pub cpu_architectures: Vec<String>,
}

/// The model of [`OsRequirements`].
pub struct OsModel {
    pub operating_systems: Seq<Seq<char>>,
    pub cpu_architectures: Seq<Seq<char>>,
}

impl View for OsRequirements {
    type V = OsModel;

    open spec fn view(&self) -> OsModel {
        OsModel {
            operating_systems: self.operating_systems.deep_view(),
            cpu_architectures: self.cpu_architectures.deep_view(),
        }
    }
}

/// The attribute entries of the OS requirements: one `anyOf` list for the operating
/// systems and one for the CPU architectures, each only when it is not empty.
pub open spec fn os_json_model(os: OsModel) -> Seq<JsonModel> {
    (if os.operating_systems.len() > 0 {
        seq![any_of_model("attr.worker.os.family"@, os.operating_systems)]
    } else {
        Seq::empty()
    }) + (if os.cpu_architectures.len() > 0 {
        seq![any_of_model("attr.worker.cpu.arch"@, os.cpu_architectures)]
    } else {
        Seq::empty()
    })
}

impl Default for OsRequirements {
    fn default() -> (os: Self)
        ensures
            os@.operating_systems.len() == 0,
            os@.cpu_architectures.len() == 0,
    {
        OsRequirements { operating_systems: Vec::new(), cpu_architectures: Vec::new() }
    }
}

impl OsRequirements {
    /// The attribute requirements for the selected operating systems and CPU architectures.
    pub fn serialize(&self) -> (result: Vec<JsonValue>)
        ensures
            values_model(result@) == os_json_model(self@),
    {
        let mut result: Vec<JsonValue> = Vec::new();
        if !self.operating_systems.is_empty() {
            result.push(any_of_json("attr.worker.os.family", &self.operating_systems));
        }
        if !self.cpu_architectures.is_empty() {
            result.push(any_of_json("attr.worker.cpu.arch", &self.cpu_architectures));
        }
        assert(values_model(result@) =~= os_json_model(self@));
        result
    }
}

/// Hardware requirements (CPU, memory, GPU, scratch space).
#[derive(Debug, Clone)]
pub struct HardwareRequirements {
    pub cpu_min: Option<i32>,
    pub cpu_max: Option<i32>,
    pub memory_min: Option<i32>,
    pub memory_max: Option<i32>,
    pub gpu_min: Option<i32>,
    pub gpu_max: Option<i32>,
    pub gpu_memory_min: Option<i32>,
    pub gpu_memory_max: Option<i32>,
    pub scratch_min: Option<i32>,
    pub scratch_max: Option<i32>,
}

/// The amount entries of the hardware requirements, in a fixed order: vCPUs, memory,
/// GPUs, GPU memory, scratch space. A resource with neither bound set has no entry.
pub open spec fn hardware_json_model(h: HardwareRequirements) -> Seq<JsonModel> {
    hardware_amount_model("amount.worker.vcpu"@, h.cpu_min, h.cpu_max)
        + hardware_amount_model("amount.worker.memory"@, h.memory_min, h.memory_max)
        + hardware_amount_model("amount.worker.gpu"@, h.gpu_min, h.gpu_max)
        + hardware_amount_model("amount.worker.gpu.memory"@, h.gpu_memory_min, h.gpu_memory_max)
        + hardware_amount_model("amount.worker.disk.scratch"@, h.scratch_min, h.scratch_max)
}

impl Default for HardwareRequirements {
    fn default() -> (h: Self)
        ensures
            h.cpu_min is None && h.cpu_max is None,
            h.memory_min is None && h.memory_max is None,
            h.gpu_min is None && h.gpu_max is None,
            h.gpu_memory_min is None && h.gpu_memory_max is None,
            h.scratch_min is None && h.scratch_max is None,
    {
        HardwareRequirements {
            cpu_min: None,
            cpu_max: None,
            memory_min: None,
            memory_max: None,
            gpu_min: None,
            gpu_max: None,
            gpu_memory_min: None,
            gpu_memory_max: None,
            scratch_min: None,
            scratch_max: None,
        }
    }
}

impl HardwareRequirements {
    /// The amount requirements for the hardware resources that have a bound.
    pub fn serialize(&self) -> (result: Vec<JsonValue>)
        ensures
            values_model(result@) == hardware_json_model(*self),
    {
        let mut result: Vec<JsonValue> = Vec::new();
        Self::push_amount(&mut result, "amount.worker.vcpu", self.cpu_min, self.cpu_max);
        Self::push_amount(&mut result, "amount.worker.memory", self.memory_min, self.memory_max);
        Self::push_amount(&mut result, "amount.worker.gpu", self.gpu_min, self.gpu_max);
        Self::push_amount(
            &mut result,
            "amount.worker.gpu.memory",
            self.gpu_memory_min,
            self.gpu_memory_max,
        );
        Self::push_amount(
            &mut result,
            "amount.worker.disk.scratch",
            self.scratch_min,
            self.scratch_max,
        );
        assert(values_model(result@) =~= hardware_json_model(*self));
        result
    }

    fn push_amount(result: &mut Vec<JsonValue>, name: &str, min: Option<i32>, max: Option<i32>)
        ensures
            values_model(final(result)@) == values_model(old(result)@) + hardware_amount_model(
                name@,
                min,
                max,
            ),
    {
        if min.is_none() && max.is_none() {
            assert(values_model(result@) =~= values_model(result@) + hardware_amount_model(
                name@,
                min,
                max,
            ));
            return ;
        }
        let obj = amount_json(name.to_owned(), min, max);
        result.push(obj);
        assert(values_model(result@) =~= values_model(old(result)@) + hardware_amount_model(
            name@,
            min,
            max,
        ));
    }
}

/// A custom amount requirement (e.g. render slots, licenses).
#[derive(Debug, Clone)]
pub struct CustomAmountRequirement {
    pub name: String,
    pub min: Option<i32>,
    pub max: Option<i32>,
}

/// The model of a [`CustomAmountRequirement`].
pub struct AmountModel {
    pub name: Seq<char>,
    pub min: Option<i32>,
    pub max: Option<i32>,
}

impl View for CustomAmountRequirement {
    type V = AmountModel;

    open spec fn view(&self) -> AmountModel {
        AmountModel { name: self.name@, min: self.min, max: self.max }
    }
}

/// The amount entry of a custom amount: its name under `amount.worker.`, with its bounds.
pub open spec fn custom_amount_json_model(a: AmountModel) -> JsonModel {
    amount_model("amount.worker."@ + a.name, a.min, a.max)
}

impl CustomAmountRequirement {
    /// The amount requirement `{"name": "amount.worker.<name>", "min": .., "max": ..}`.
    pub fn serialize(&self) -> (json: JsonValue)
        ensures
            json@ == custom_amount_json_model(self@),
    {
        let mut name = "amount.worker.".to_owned();
        name.append(self.name.as_str());
        amount_json(name, self.min, self.max)
    }
}

/// A custom attribute requirement (e.g. department, software).
#[derive(Debug, Clone)]
pub struct CustomAttributeRequirement {
    pub name: String,
    /// `"anyOf"` or `"allOf"`.
    pub option: String,
    pub values: Vec<String>,
}

/// The model of a [`CustomAttributeRequirement`].
pub struct AttributeModel {
    pub name: Seq<char>,
    pub option: Seq<char>,
    pub values: Seq<Seq<char>>,
}

impl View for CustomAttributeRequirement {
    type V = AttributeModel;

    open spec fn view(&self) -> AttributeModel {
        AttributeModel {
            name: self.name@,
            option: self.option@,
            values: self.values.deep_view(),
        }
    }
}

/// The attribute entry of a custom attribute: `{"name": "attr.worker.<name>"}`, then its
/// option set to the list of values (which replaces the name when the option is `name`).
pub open spec fn custom_attribute_json_model(a: AttributeModel) -> JsonModel {
    JsonModel::Object(
        insert_member(
            seq![("name"@, JsonModel::String("attr.worker."@ + a.name))],
            a.option,
            strings_model(a.values),
        ),
    )
}

impl CustomAttributeRequirement {
    /// The attribute requirement `{"name": "attr.worker.<name>", <option>: [values..]}`.
    pub fn serialize(&self) -> (json: JsonValue)
        ensures
            json@ == custom_attribute_json_model(self@),
    {
        let mut name = "attr.worker.".to_owned();
        name.append(self.name.as_str());
        let mut members = vec![JsonMember { key: "name".to_owned(), value: JsonValue::String(name) }];
        assert(members_model(members@) =~= seq![
            ("name"@, JsonModel::String("attr.worker."@ + self.name@)),
        ]);
        insert_member_exec(&mut members, self.option.clone(), strings_to_json(&self.values));
        proof {
            lemma_object_view(members);
        }
        JsonValue::Object(members)
    }
}

/// Combined host requirements.
#[derive(Debug, Clone)]
pub struct HostRequirements {
    pub os: OsRequirements,
    pub hardware: HardwareRequirements,
    pub custom_amounts: Vec<CustomAmountRequirement>,
    pub custom_attributes: Vec<CustomAttributeRequirement>,
}

/// The model of [`HostRequirements`].
pub struct HostModel {
    pub os: OsModel,
    pub hardware: HardwareRequirements,
    pub custom_amounts: Seq<AmountModel>,
    pub custom_attributes: Seq<AttributeModel>,
}

impl View for HostRequirements {
    type V = HostModel;

    open spec fn view(&self) -> HostModel {
        HostModel {
            os: self.os@,
            hardware: self.hardware,
            custom_amounts: self.custom_amounts@.map_values(|a: CustomAmountRequirement| a@),
            custom_attributes: self.custom_attributes@.map_values(
                |a: CustomAttributeRequirement| a@,
            ),
        }
    }
}

/// All amount entries: the hardware ones, then the custom ones in order.
pub open spec fn amounts_json_model(h: HostModel) -> Seq<JsonModel> {
    hardware_json_model(h.hardware) + h.custom_amounts.map_values(
        |a: AmountModel| custom_amount_json_model(a),
    )
}

/// All attribute entries: the OS ones, then the custom ones in order.
pub open spec fn attributes_json_model(h: HostModel) -> Seq<JsonModel> {
    os_json_model(h.os) + h.custom_attributes.map_values(
        |a: AttributeModel| custom_attribute_json_model(a),
    )
}

/// The `hostRequirements` object: an `"amounts"` list and an `"attributes"` list, each
/// present only when it is not empty.
pub open spec fn host_json_model(h: HostModel) -> JsonModel {
    let amounts = amounts_json_model(h);
    let attributes = attributes_json_model(h);
    JsonModel::Object(
        (if amounts.len() > 0 {
            seq![("amounts"@, JsonModel::Array(amounts))]
        } else {
            Seq::empty()
        }) + (if attributes.len() > 0 {
            seq![("attributes"@, JsonModel::Array(attributes))]
        } else {
            Seq::empty()
        }),
    )
}

impl Default for HostRequirements {
    fn default() -> (h: Self)
        ensures
            h@.os.operating_systems.len() == 0,
            h@.os.cpu_architectures.len() == 0,
            h.hardware.cpu_min is None && h.hardware.cpu_max is None,
            h.hardware.memory_min is None && h.hardware.memory_max is None,
            h.hardware.gpu_min is None && h.hardware.gpu_max is None,
            h.hardware.gpu_memory_min is None && h.hardware.gpu_memory_max is None,
            h.hardware.scratch_min is None && h.hardware.scratch_max is None,
            h@.custom_amounts.len() == 0,
            h@.custom_attributes.len() == 0,
    {
        HostRequirements {
            os: OsRequirements::default(),
            hardware: HardwareRequirements::default(),
            custom_amounts: Vec::new(),
            custom_attributes: Vec::new(),
        }
    }
}

impl HostRequirements {
    /// The `hostRequirements` JSON object.
    pub fn serialize(&self) -> (json: JsonValue)
        ensures
            json@ == host_json_model(self@),
    {
        let ghost model = self@;
        let mut amounts: Vec<JsonValue> = Vec::new();
        let mut attributes: Vec<JsonValue> = Vec::new();

        let mut os_entries = self.os.serialize();
        attributes.append(&mut os_entries);
        let mut hardware_entries = self.hardware.serialize();
        amounts.append(&mut hardware_entries);
        assert(values_model(amounts@) =~= hardware_json_model(self.hardware));
        assert(values_model(attributes@) =~= os_json_model(self.os@));

        let n = self.custom_amounts.len();
        let mut i: usize = 0;
        while i < n
            invariant
                n == self.custom_amounts.len(),
                i <= n,
                model == self@,
                values_model(amounts@) =~= hardware_json_model(self.hardware)
                    + model.custom_amounts.take(i as int).map_values(
                    |a: AmountModel| custom_amount_json_model(a),
                ),
            decreases n - i,
        {
            let ghost before = values_model(amounts@);
            amounts.push(self.custom_amounts[i].serialize());
            assert(values_model(amounts@) =~= before.push(
                custom_amount_json_model(model.custom_amounts[i as int]),
            ));
            assert(model.custom_amounts.take(i as int + 1).map_values(
                |a: AmountModel| custom_amount_json_model(a),
            ) =~= model.custom_amounts.take(i as int).map_values(
                |a: AmountModel| custom_amount_json_model(a),
            ).push(custom_amount_json_model(model.custom_amounts[i as int])));
            i = i + 1;
        }
        assert(model.custom_amounts.take(n as int) =~= model.custom_amounts);

        let m = self.custom_attributes.len();
        let mut k: usize = 0;
        while k < m
            invariant
                m == self.custom_attributes.len(),
                k <= m,
                model == self@,
                values_model(attributes@) =~= os_json_model(self.os@)
                    + model.custom_attributes.take(k as int).map_values(
                    |a: AttributeModel| custom_attribute_json_model(a),
                ),
            decreases m - k,
        {
            let ghost before = values_model(attributes@);
            attributes.push(self.custom_attributes[k].serialize());
            assert(values_model(attributes@) =~= before.push(
                custom_attribute_json_model(model.custom_attributes[k as int]),
            ));
            assert(model.custom_attributes.take(k as int + 1).map_values(
                |a: AttributeModel| custom_attribute_json_model(a),
            ) =~= model.custom_attributes.take(k as int).map_values(
                |a: AttributeModel| custom_attribute_json_model(a),
            ).push(custom_attribute_json_model(model.custom_attributes[k as int])));
            k = k + 1;
        }
        assert(model.custom_attributes.take(m as int) =~= model.custom_attributes);
        assert(values_model(amounts@) =~= amounts_json_model(model));
        assert(values_model(attributes@) =~= attributes_json_model(model));

        proof {
            reveal_strlit("amounts");
            reveal_strlit("attributes");
            assert("amounts"@[1] != "attributes"@[1]);
        }
        let ghost amounts_model = values_model(amounts@);
        let ghost attributes_model = values_model(attributes@);
        let mut members: Vec<JsonMember> = Vec::new();
        let has_amounts = !amounts.is_empty();
        let has_attributes = !attributes.is_empty();
        if has_amounts {
            proof {
                lemma_array_view(amounts);
                lemma_insert_new_member(
                    members_model(members@),
                    "amounts"@,
                    JsonModel::Array(amounts_model),
                );
            }
            insert_member_exec(&mut members, "amounts".to_owned(), JsonValue::Array(amounts));
        }
        let ghost after_amounts = members_model(members@);
        assert(after_amounts =~= if amounts_model.len() > 0 {
            seq![("amounts"@, JsonModel::Array(amounts_model))]
        } else {
            Seq::empty()
        });
        if has_attributes {
            proof {
                lemma_array_view(attributes);
                lemma_insert_new_member(
                    after_amounts,
                    "attributes"@,
                    JsonModel::Array(attributes_model),
                );
            }
            insert_member_exec(&mut members, "attributes".to_owned(), JsonValue::Array(attributes));
        }
        assert(members_model(members@) =~= host_json_model(model)->Object_0);
        proof {
            lemma_object_view(members);
        }
        JsonValue::Object(members)
    }
}

/// The JSON number of a set bound.
pub open spec fn number_of(bound: Option<int>) -> Option<JsonModel> {
    match bound {
        Some(v) => Some(JsonModel::Number(v)),
        None => None,
    }
}

/// A bound as an integer.
pub open spec fn bound_int(bound: Option<i32>) -> Option<int> {
    match bound {
        Some(v) => Some(v as int),
        None => None,
    }
}

/// The items of the list member `key` of `json`; none when there is no such list.
pub open spec fn list_member(json: JsonModel, key: Seq<char>) -> Seq<JsonModel> {
    match get_member(json, key) {
        Some(JsonModel::Array(items)) => items,
        _ => Seq::empty(),
    }
}

/// When a bound is set, the first entry called `name` has exactly the `"min"` and `"max"`
/// members that the bounds give.
pub open spec fn amount_written(
    entries: Seq<JsonModel>,
    name: Seq<char>,
    min: Option<int>,
    max: Option<int>,
) -> bool {
    (min is Some || max is Some) ==> {
        &&& find_named(entries, name) is Some
        &&& get_member(find_named(entries, name)->Some_0, "min"@) == number_of(min)
        &&& get_member(find_named(entries, name)->Some_0, "max"@) == number_of(max)
    }
}

/// Whether any hardware bound is set.
pub open spec fn hardware_has_bound(h: HardwareRequirements) -> bool {
    ||| h.cpu_min is Some || h.cpu_max is Some
    ||| h.memory_min is Some || h.memory_max is Some
    ||| h.gpu_min is Some || h.gpu_max is Some
    ||| h.gpu_memory_min is Some || h.gpu_memory_max is Some
    ||| h.scratch_min is Some || h.scratch_max is Some
}

/// `entry` is the amount entry of the custom amount `a`.
pub open spec fn custom_amount_written(entry: JsonModel, a: AmountModel) -> bool {
    &&& get_member(entry, "name"@) == Some(JsonModel::String("amount.worker."@ + a.name))
    &&& get_member(entry, "min"@) == number_of(bound_int(a.min))
    &&& get_member(entry, "max"@) == number_of(bound_int(a.max))
}

/// `entry` is the attribute entry of the custom attribute `a`: its option lists the
/// values, and its name is the worker attribute unless the option is `name` itself.
pub open spec fn custom_attribute_written(entry: JsonModel, a: AttributeModel) -> bool {
    &&& get_member(entry, a.option) == Some(strings_model(a.values))
    &&& a.option != "name"@ ==> get_member(entry, "name"@) == Some(
        JsonModel::String("attr.worker."@ + a.name),
    )
}

proof fn lemma_literal_keys()
    ensures
        "name"@.len() == 4,
        "min"@.len() == 3,
        "max"@.len() == 3,
        "min"@ != "max"@,
        "anyOf"@.len() == 5,
        "amounts"@.len() == 7,
        "attributes"@.len() == 10,
        "attr.worker.os.family"@.len() == 21,
        "attr.worker.cpu.arch"@.len() == 20,
        "amount.worker.vcpu"@.len() == 18,
        "amount.worker.memory"@.len() == 20,
        "amount.worker.gpu"@.len() == 17,
        "amount.worker.gpu.memory"@.len() == 24,
        "amount.worker.disk.scratch"@.len() == 26,
{
    reveal_strlit("name");
    reveal_strlit("min");
    reveal_strlit("max");
    reveal_strlit("anyOf");
    reveal_strlit("amounts");
    reveal_strlit("attributes");
    reveal_strlit("attr.worker.os.family");
    reveal_strlit("attr.worker.cpu.arch");
    reveal_strlit("amount.worker.vcpu");
    reveal_strlit("amount.worker.memory");
    reveal_strlit("amount.worker.gpu");
    reveal_strlit("amount.worker.gpu.memory");
    reveal_strlit("amount.worker.disk.scratch");
    assert("min"@[1] != "max"@[1]);
}

proof fn lemma_any_of_members(name: Seq<char>, values: Seq<Seq<char>>)
    ensures
        get_member(any_of_model(name, values), "name"@) == Some(JsonModel::String(name)),
        get_member(any_of_model(name, values), "anyOf"@) == Some(strings_model(values)),
{
    lemma_literal_keys();
    let members = any_of_model(name, values)->Object_0;
    assert("name"@ != "anyOf"@);
    assert(members.drop_first() =~= seq![("anyOf"@, strings_model(values))]);
    assert(member_value(members.drop_first(), "anyOf"@) == Some(strings_model(values)));
}

/// The OS family entry is there exactly when operating systems are selected and the CPU
/// architecture entry exactly when architectures are selected, each independently of the
/// other, and each lists exactly its selections.
pub proof fn lemma_os_entries(os: OsModel)
    ensures
        find_named(os_json_model(os), "attr.worker.os.family"@) is Some
            <==> os.operating_systems.len() > 0,
        find_named(os_json_model(os), "attr.worker.cpu.arch"@) is Some
            <==> os.cpu_architectures.len() > 0,
        os.operating_systems.len() > 0 ==> get_member(
            find_named(os_json_model(os), "attr.worker.os.family"@)->Some_0,
            "anyOf"@,
        ) == Some(strings_model(os.operating_systems)),
        os.cpu_architectures.len() > 0 ==> get_member(
            find_named(os_json_model(os), "attr.worker.cpu.arch"@)->Some_0,
            "anyOf"@,
        ) == Some(strings_model(os.cpu_architectures)),
        os_json_model(os).len() <= 2,
{
    lemma_literal_keys();
    let family = "attr.worker.os.family"@;
    let arch = "attr.worker.cpu.arch"@;
    lemma_any_of_members(family, os.operating_systems);
    lemma_any_of_members(arch, os.cpu_architectures);
    let first: Seq<JsonModel> = if os.operating_systems.len() > 0 {
        seq![any_of_model(family, os.operating_systems)]
    } else {
        Seq::empty()
    };
    let second: Seq<JsonModel> = if os.cpu_architectures.len() > 0 {
        seq![any_of_model(arch, os.cpu_architectures)]
    } else {
        Seq::empty()
    };
    assert(os_json_model(os) == first + second);
    lemma_find_named_concat(first, second, family);
    lemma_find_named_concat(first, second, arch);
    assert(first.len() > 0 ==> first.drop_first() =~= Seq::<JsonModel>::empty());
    assert(second.len() > 0 ==> second.drop_first() =~= Seq::<JsonModel>::empty());
    assert(family != arch);
    assert(find_named(Seq::<JsonModel>::empty(), arch) is None);
    assert(find_named(Seq::<JsonModel>::empty(), family) is None);
    if first.len() > 0 {
        assert(get_member(first[0], "name"@) != Some(JsonModel::String(arch)));
        assert(find_named(first.drop_first(), arch) is None);
    }
    if second.len() > 0 {
        assert(get_member(second[0], "name"@) != Some(JsonModel::String(family)));
        assert(find_named(second.drop_first(), family) is None);
    }
    assert(find_named(first, arch) is None);
    assert(find_named(second, family) is None);
}

proof fn lemma_amount_model_members(name: Seq<char>, min: Option<i32>, max: Option<i32>)
    ensures
        get_member(amount_model(name, min, max), "name"@) == Some(JsonModel::String(name)),
        get_member(amount_model(name, min, max), "min"@) == number_of(bound_int(min)),
        get_member(amount_model(name, min, max), "max"@) == number_of(bound_int(max)),
{
    lemma_literal_keys();
    let rest = bound_member("min"@, min) + bound_member("max"@, max);
    let members = amount_model(name, min, max)->Object_0;
    assert(members.drop_first() =~= rest);
    let empty = Seq::<(Seq<char>, JsonModel)>::empty();
    assert(member_value(empty, "min"@) is None);
    assert(member_value(empty, "max"@) is None);
    let last = bound_member("max"@, max);
    match max {
        Some(v) => {
            assert(last.drop_first() =~= empty);
            assert(member_value(last, "max"@) == number_of(bound_int(max)));
            assert(member_value(last, "min"@) is None);
        },
        None => {
            assert(last =~= empty);
        },
    }
    match min {
        Some(v) => {
            assert(rest.drop_first() =~= last);
            assert(member_value(rest, "min"@) == number_of(bound_int(min)));
            assert(member_value(rest, "max"@) == member_value(last, "max"@));
        },
        None => {
            assert(rest =~= last);
        },
    }
    assert(member_value(members, "min"@) == member_value(rest, "min"@));
    assert(member_value(members, "max"@) == member_value(rest, "max"@));
}

proof fn lemma_find_in_hardware_amount(
    name: Seq<char>,
    min: Option<i32>,
    max: Option<i32>,
    wanted: Seq<char>,
)
    ensures
        find_named(hardware_amount_model(name, min, max), wanted) == if (min is Some || max is Some)
            && name == wanted {
            Some(amount_model(name, min, max))
        } else {
            None
        },
{
    lemma_amount_model_members(name, min, max);
    let entries = hardware_amount_model(name, min, max);
    assert(find_named(Seq::<JsonModel>::empty(), wanted) is None);
    if entries.len() > 0 {
        assert(entries.drop_first() =~= Seq::<JsonModel>::empty());
    }
}

proof fn lemma_find_in_hardware(h: HardwareRequirements, tail: Seq<JsonModel>, wanted: Seq<char>)
    ensures
        ({
            let x1 = hardware_amount_model("amount.worker.vcpu"@, h.cpu_min, h.cpu_max);
            let x2 = hardware_amount_model("amount.worker.memory"@, h.memory_min, h.memory_max);
            let x3 = hardware_amount_model("amount.worker.gpu"@, h.gpu_min, h.gpu_max);
            let x4 = hardware_amount_model(
                "amount.worker.gpu.memory"@,
                h.gpu_memory_min,
                h.gpu_memory_max,
            );
            let x5 = hardware_amount_model(
                "amount.worker.disk.scratch"@,
                h.scratch_min,
                h.scratch_max,
            );
            find_named(hardware_json_model(h) + tail, wanted) == if find_named(x1, wanted) is Some {
                find_named(x1, wanted)
            } else if find_named(x2, wanted) is Some {
                find_named(x2, wanted)
            } else if find_named(x3, wanted) is Some {
                find_named(x3, wanted)
            } else if find_named(x4, wanted) is Some {
                find_named(x4, wanted)
            } else if find_named(x5, wanted) is Some {
                find_named(x5, wanted)
            } else {
                find_named(tail, wanted)
            }
        }),
{
    let x1 = hardware_amount_model("amount.worker.vcpu"@, h.cpu_min, h.cpu_max);
    let x2 = hardware_amount_model("amount.worker.memory"@, h.memory_min, h.memory_max);
    let x3 = hardware_amount_model("amount.worker.gpu"@, h.gpu_min, h.gpu_max);
    let x4 = hardware_amount_model("amount.worker.gpu.memory"@, h.gpu_memory_min, h.gpu_memory_max);
    let x5 = hardware_amount_model("amount.worker.disk.scratch"@, h.scratch_min, h.scratch_max);
    assert(hardware_json_model(h) == x1 + x2 + x3 + x4 + x5);
    lemma_find_named_concat(x1 + x2 + x3 + x4 + x5, tail, wanted);
    lemma_find_named_concat(x1 + x2 + x3 + x4, x5, wanted);
    lemma_find_named_concat(x1 + x2 + x3, x4, wanted);
    lemma_find_named_concat(x1 + x2, x3, wanted);
    lemma_find_named_concat(x1, x2, wanted);
}

/// Every hardware bound is written under its own resource, and only there: when a
/// resource has a bound, the first amount entry with that resource's name carries
/// exactly that resource's minimum and maximum, whatever the other bounds and the custom
/// amounts are.
pub proof fn lemma_hardware_amounts_written(h: HostModel)
    ensures
        ({
            let amounts = list_member(host_json_model(h), "amounts"@);
            let hw = h.hardware;
            &&& amount_written(
                amounts,
                "amount.worker.vcpu"@,
                bound_int(hw.cpu_min),
                bound_int(hw.cpu_max),
            )
            &&& amount_written(
                amounts,
                "amount.worker.memory"@,
                bound_int(hw.memory_min),
                bound_int(hw.memory_max),
            )
            &&& amount_written(
                amounts,
                "amount.worker.gpu"@,
                bound_int(hw.gpu_min),
                bound_int(hw.gpu_max),
            )
            &&& amount_written(
                amounts,
                "amount.worker.gpu.memory"@,
                bound_int(hw.gpu_memory_min),
                bound_int(hw.gpu_memory_max),
            )
            &&& amount_written(
                amounts,
                "amount.worker.disk.scratch"@,
                bound_int(hw.scratch_min),
                bound_int(hw.scratch_max),
            )
        }),
{
    lemma_literal_keys();
    let hw = h.hardware;
    let tail = h.custom_amounts.map_values(|a: AmountModel| custom_amount_json_model(a));
    let names = seq![
        "amount.worker.vcpu"@,
        "amount.worker.memory"@,
        "amount.worker.gpu"@,
        "amount.worker.gpu.memory"@,
        "amount.worker.disk.scratch"@,
    ];
    lemma_host_members(h);
    assert forall|k: int| 0 <= k < 5 implies {
        &&& #[trigger] names[k] == names[k]
        &&& find_named(hardware_json_model(hw) + tail, names[k]) == {
            let n = names[k];
            let x1 = hardware_amount_model("amount.worker.vcpu"@, hw.cpu_min, hw.cpu_max);
            let x2 = hardware_amount_model("amount.worker.memory"@, hw.memory_min, hw.memory_max);
            let x3 = hardware_amount_model("amount.worker.gpu"@, hw.gpu_min, hw.gpu_max);
            let x4 = hardware_amount_model(
                "amount.worker.gpu.memory"@,
                hw.gpu_memory_min,
                hw.gpu_memory_max,
            );
            let x5 = hardware_amount_model(
                "amount.worker.disk.scratch"@,
                hw.scratch_min,
                hw.scratch_max,
            );
            if find_named(x1, n) is Some {
                find_named(x1, n)
            } else if find_named(x2, n) is Some {
                find_named(x2, n)
            } else if find_named(x3, n) is Some {
                find_named(x3, n)
            } else if find_named(x4, n) is Some {
                find_named(x4, n)
            } else if find_named(x5, n) is Some {
                find_named(x5, n)
            } else {
                find_named(tail, n)
            }
        }
    } by {
        let n = names[k];
        lemma_find_in_hardware(hw, tail, n);
    }
    assert forall|k: int| 0 <= k < 5 implies {
        &&& find_named(hardware_amount_model("amount.worker.vcpu"@, hw.cpu_min, hw.cpu_max), #[trigger] names[k]) == if (hw.cpu_min is Some || hw.cpu_max is Some) && k == 0 { Some(amount_model("amount.worker.vcpu"@, hw.cpu_min, hw.cpu_max)) } else { None }
        &&& find_named(hardware_amount_model("amount.worker.memory"@, hw.memory_min, hw.memory_max), names[k]) == if (hw.memory_min is Some || hw.memory_max is Some) && k == 1 { Some(amount_model("amount.worker.memory"@, hw.memory_min, hw.memory_max)) } else { None }
        &&& find_named(hardware_amount_model("amount.worker.gpu"@, hw.gpu_min, hw.gpu_max), names[k]) == if (hw.gpu_min is Some || hw.gpu_max is Some) && k == 2 { Some(amount_model("amount.worker.gpu"@, hw.gpu_min, hw.gpu_max)) } else { None }
        &&& find_named(hardware_amount_model("amount.worker.gpu.memory"@, hw.gpu_memory_min, hw.gpu_memory_max), names[k]) == if (hw.gpu_memory_min is Some || hw.gpu_memory_max is Some) && k == 3 { Some(amount_model("amount.worker.gpu.memory"@, hw.gpu_memory_min, hw.gpu_memory_max)) } else { None }
        &&& find_named(hardware_amount_model("amount.worker.disk.scratch"@, hw.scratch_min, hw.scratch_max), names[k]) == if (hw.scratch_min is Some || hw.scratch_max is Some) && k == 4 { Some(amount_model("amount.worker.disk.scratch"@, hw.scratch_min, hw.scratch_max)) } else { None }
    } by {
        let n = names[k];
        lemma_find_in_hardware_amount("amount.worker.vcpu"@, hw.cpu_min, hw.cpu_max, n);
        lemma_find_in_hardware_amount("amount.worker.memory"@, hw.memory_min, hw.memory_max, n);
        lemma_find_in_hardware_amount("amount.worker.gpu"@, hw.gpu_min, hw.gpu_max, n);
        lemma_find_in_hardware_amount("amount.worker.gpu.memory"@, hw.gpu_memory_min, hw.gpu_memory_max, n);
        lemma_find_in_hardware_amount("amount.worker.disk.scratch"@, hw.scratch_min, hw.scratch_max, n);
    }
    lemma_amount_model_members("amount.worker.vcpu"@, hw.cpu_min, hw.cpu_max);
    lemma_amount_model_members("amount.worker.memory"@, hw.memory_min, hw.memory_max);
    lemma_amount_model_members("amount.worker.gpu"@, hw.gpu_min, hw.gpu_max);
    lemma_amount_model_members("amount.worker.gpu.memory"@, hw.gpu_memory_min, hw.gpu_memory_max);
    lemma_amount_model_members("amount.worker.disk.scratch"@, hw.scratch_min, hw.scratch_max);
    assert(names[0] == "amount.worker.vcpu"@);
    assert(names[1] == "amount.worker.memory"@);
    assert(names[2] == "amount.worker.gpu"@);
    assert(names[3] == "amount.worker.gpu.memory"@);
    assert(names[4] == "amount.worker.disk.scratch"@);
}

proof fn lemma_host_members(h: HostModel)
    ensures
        amounts_json_model(h).len() > 0 ==> get_member(host_json_model(h), "amounts"@) == Some(
            JsonModel::Array(amounts_json_model(h)),
        ),
        amounts_json_model(h).len() == 0 ==> get_member(host_json_model(h), "amounts"@) is None,
        attributes_json_model(h).len() > 0 ==> get_member(host_json_model(h), "attributes"@)
            == Some(JsonModel::Array(attributes_json_model(h))),
        attributes_json_model(h).len() == 0 ==> get_member(host_json_model(h), "attributes"@) is None,
        list_member(host_json_model(h), "amounts"@) == amounts_json_model(h),
        list_member(host_json_model(h), "attributes"@) == attributes_json_model(h),
{
    lemma_literal_keys();
    let amounts = amounts_json_model(h);
    let attributes = attributes_json_model(h);
    let first: Seq<(Seq<char>, JsonModel)> = if amounts.len() > 0 {
        seq![("amounts"@, JsonModel::Array(amounts))]
    } else {
        Seq::empty()
    };
    let second: Seq<(Seq<char>, JsonModel)> = if attributes.len() > 0 {
        seq![("attributes"@, JsonModel::Array(attributes))]
    } else {
        Seq::empty()
    };
    let members = host_json_model(h)->Object_0;
    assert(members == first + second);
    let empty = Seq::<(Seq<char>, JsonModel)>::empty();
    assert(member_value(empty, "amounts"@) is None);
    assert(member_value(empty, "attributes"@) is None);
    assert(second.len() > 0 ==> second.drop_first() =~= empty);
    if attributes.len() > 0 {
        assert(member_value(second, "attributes"@) == Some(JsonModel::Array(attributes)));
    }
    assert(member_value(second, "amounts"@) is None);
    if amounts.len() > 0 {
        assert(members.drop_first() =~= second);
        assert(member_value(members, "attributes"@) == member_value(second, "attributes"@));
    } else {
        assert(members =~= second);
    }
    assert(amounts.len() == 0 ==> amounts =~= Seq::<JsonModel>::empty());
    assert(attributes.len() == 0 ==> attributes =~= Seq::<JsonModel>::empty());
}

proof fn lemma_custom_attribute_members(a: AttributeModel)
    ensures
        custom_attribute_written(custom_attribute_json_model(a), a),
{
    lemma_literal_keys();
    let base = seq![("name"@, JsonModel::String("attr.worker."@ + a.name))];
    lemma_insert_member_lookup(base, a.option, strings_model(a.values), "name"@);
    assert(base.drop_first() =~= Seq::<(Seq<char>, JsonModel)>::empty());
}

/// Some entry of `entries` is the amount entry of `a`.
pub open spec fn has_amount_entry(entries: Seq<JsonModel>, a: AmountModel) -> bool {
    exists|k: int| 0 <= k < entries.len() && custom_amount_written(#[trigger] entries[k], a)
}

/// Some entry of `entries` is the attribute entry of `a`.
pub open spec fn has_attribute_entry(entries: Seq<JsonModel>, a: AttributeModel) -> bool {
    exists|k: int| 0 <= k < entries.len() && custom_attribute_written(#[trigger] entries[k], a)
}

/// The `"amounts"` list is there exactly when a hardware bound is set or a custom amount
/// is given, and the `"attributes"` list exactly when an operating system, a CPU
/// architecture or a custom attribute is selected. Each custom amount and each custom
/// attribute has its entry in its list.
pub proof fn lemma_host_lists(h: HostModel)
    ensures
        get_member(host_json_model(h), "amounts"@) is Some <==> (hardware_has_bound(h.hardware)
            || h.custom_amounts.len() > 0),
        get_member(host_json_model(h), "attributes"@) is Some <==> (h.os.operating_systems.len()
            > 0 || h.os.cpu_architectures.len() > 0 || h.custom_attributes.len() > 0),
        forall|i: int|
            0 <= i < h.custom_amounts.len() ==> has_amount_entry(
                list_member(host_json_model(h), "amounts"@),
                #[trigger] h.custom_amounts[i],
            ),
        forall|i: int|
            0 <= i < h.custom_attributes.len() ==> has_attribute_entry(
                list_member(host_json_model(h), "attributes"@),
                #[trigger] h.custom_attributes[i],
            ),
{
    lemma_host_members(h);
    let amounts = amounts_json_model(h);
    let attributes = attributes_json_model(h);
    let hw = hardware_json_model(h.hardware);
    let os = os_json_model(h.os);
    assert(hw.len() > 0 <==> hardware_has_bound(h.hardware));
    assert(os.len() > 0 <==> (h.os.operating_systems.len() > 0 || h.os.cpu_architectures.len()
        > 0));
    assert forall|i: int| 0 <= i < h.custom_amounts.len() implies has_amount_entry(
        amounts,
        #[trigger] h.custom_amounts[i],
    ) by {
        let a = h.custom_amounts[i];
        let k = hw.len() + i;
        assert(amounts[k] == custom_amount_json_model(a));
        lemma_amount_model_members("amount.worker."@ + a.name, a.min, a.max);
        assert(custom_amount_written(amounts[k], a));
    }
    assert forall|i: int| 0 <= i < h.custom_attributes.len() implies has_attribute_entry(
        attributes,
        #[trigger] h.custom_attributes[i],
    ) by {
        let a = h.custom_attributes[i];
        let k = os.len() + i;
        assert(attributes[k] == custom_attribute_json_model(a));
        lemma_custom_attribute_members(a);
        assert(custom_attribute_written(attributes[k], a));
    }
}

} // verus!
