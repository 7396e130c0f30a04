use vstd::prelude::*;

verus! {

/// A JSON value, as the host requirement serializers build it.
///
/// Objects keep their members in insertion order; a key occurs at most once
/// when the members were set with [`insert_member_exec`].
#[derive(Debug, PartialEq, Eq)]
pub enum JsonValue {
    Number(i32),
    String(String),
    Array(Vec<JsonValue>),
    Object(Vec<JsonMember>),
}

/// A member of a JSON object: a key and its value.
#[derive(Debug, PartialEq, Eq)]
pub struct JsonMember {
    pub key: String,
    pub value: JsonValue,
}

/// The mathematical model of a [`JsonValue`].
pub enum JsonModel {
    Number(int),
    String(Seq<char>),
    Array(Seq<JsonModel>),
    Object(Seq<(Seq<char>, JsonModel)>),
}

/// The model of `value`: strings by their characters, numbers as integers.
pub open spec fn json_model(value: JsonValue) -> JsonModel
    decreases value,
{
    match value {
        JsonValue::Number(n) => JsonModel::Number(n as int),
        JsonValue::String(s) => JsonModel::String(s@),
        JsonValue::Array(items) => JsonModel::Array(
            Seq::new(
                items@.len(),
                |i: int|
                    {
                        proof {
                            if 0 <= i < items@.len() {
                                assert(decreases_to!(items@ => items@[i]));
                            }
                        }
                        if 0 <= i < items@.len() {
                            json_model(items@[i])
                        } else {
                            JsonModel::Number(0)
                        }
                    },
            ),
        ),
        JsonValue::Object(members) => JsonModel::Object(
            Seq::new(
                members@.len(),
                |i: int|
                    {
                        proof {
                            if 0 <= i < members@.len() {
                                assert(decreases_to!(members@ => members@[i]));
                                assert(decreases_to!(members@[i] => members@[i].value));
                            }
                        }
                        if 0 <= i < members@.len() {
                            (members@[i].key@, json_model(members@[i].value))
                        } else {
                            (Seq::empty(), JsonModel::Number(0))
                        }
                    },
            ),
        ),
    }
}

impl View for JsonValue {
    type V = JsonModel;

    open spec fn view(&self) -> JsonModel {
        json_model(*self)
    }
}

/// The models of a sequence of JSON values.
pub open spec fn values_model(items: Seq<JsonValue>) -> Seq<JsonModel> {
    items.map_values(|j: JsonValue| j@)
}

/// The models of a sequence of object members.
pub open spec fn members_model(members: Seq<JsonMember>) -> Seq<(Seq<char>, JsonModel)> {
    members.map_values(|m: JsonMember| (m.key@, m.value@))
}

/// An array's model is the sequence of its items' models.
pub proof fn lemma_array_view(items: Vec<JsonValue>)
    ensures
        JsonValue::Array(items)@ == JsonModel::Array(values_model(items@)),
{
    assert(JsonValue::Array(items)@->Array_0 =~= values_model(items@));
}

/// An object's model is the sequence of its members' models.
pub proof fn lemma_object_view(members: Vec<JsonMember>)
    ensures
        JsonValue::Object(members)@ == JsonModel::Object(members_model(members@)),
{
    assert(JsonValue::Object(members)@->Object_0 =~= members_model(members@));
}

/// The members after `obj[key] = value`: the first member with that key gets the new
/// value, or a new member goes at the end.
pub open spec fn insert_member(
    members: Seq<(Seq<char>, JsonModel)>,
    key: Seq<char>,
    value: JsonModel,
) -> Seq<(Seq<char>, JsonModel)>
    decreases members.len(),
{
    if members.len() == 0 {
        seq![(key, value)]
    } else if members[0].0 == key {
        members.update(0, (key, value))
    } else {
        seq![members[0]] + insert_member(members.drop_first(), key, value)
    }
}

proof fn lemma_insert_member_at(
    members: Seq<(Seq<char>, JsonModel)>,
    key: Seq<char>,
    value: JsonModel,
    i: int,
)
    requires
        0 <= i <= members.len(),
        forall|j: int| 0 <= j < i ==> members[j].0 != key,
        i < members.len() ==> members[i].0 == key,
    ensures
        insert_member(members, key, value) == if i < members.len() {
            members.update(i, (key, value))
        } else {
            members.push((key, value))
        },
    decreases members.len(),
{
    if members.len() == 0 {
        assert(seq![(key, value)] =~= members.push((key, value)));
    } else if i > 0 {
        let rest = members.drop_first();
        assert(forall|j: int| 0 <= j < i - 1 ==> rest[j] == members[j + 1]);
        lemma_insert_member_at(rest, key, value, i - 1);
        if i < members.len() {
            assert(seq![members[0]] + rest.update(i - 1, (key, value)) =~= members.update(
                i,
                (key, value),
            ));
        } else {
            assert(seq![members[0]] + rest.push((key, value)) =~= members.push((key, value)));
        }
    }
}

/// Inserting a key that no member has appends a member.
pub proof fn lemma_insert_new_member(
    members: Seq<(Seq<char>, JsonModel)>,
    key: Seq<char>,
    value: JsonModel,
)
    requires
        forall|j: int| 0 <= j < members.len() ==> members[j].0 != key,
    ensures
        insert_member(members, key, value) == members.push((key, value)),
{
    lemma_insert_member_at(members, key, value, members.len() as int);
}

/// Sets member `key` of an object to `value`, as `obj[key] = value` does on a JSON object.
pub fn insert_member_exec(members: &mut Vec<JsonMember>, key: String, value: JsonValue)
    ensures
        members_model(final(members)@) == insert_member(
            members_model(old(members)@),
            key@,
            value@,
        ),
{
    let ghost old_model = members_model(members@);
    let n = members.len();
    let mut i: usize = 0;
    while i < n
        invariant
            n == members.len(),
            i <= n,
            old_model == members_model(members@),
            old_model == members_model(old(members)@),
            forall|j: int| 0 <= j < i ==> old_model[j].0 != key@,
        decreases n - i,
    {
        if members[i].key == key {
            proof {
                lemma_insert_member_at(old_model, key@, value@, i as int);
            }
            members.set(i, JsonMember { key, value });
            assert(members_model(members@) =~= old_model.update(i as int, (key@, value@)));
            return ;
        }
        i = i + 1;
    }
    proof {
        lemma_insert_member_at(old_model, key@, value@, n as int);
    }
    members.push(JsonMember { key, value });
    assert(members_model(members@) =~= old_model.push((key@, value@)));
}

/// The value of the first member with key `key`, if there is one.
pub open spec fn member_value(members: Seq<(Seq<char>, JsonModel)>, key: Seq<char>) -> Option<
    JsonModel,
>
    decreases members.len(),
{
    if members.len() == 0 {
        None
    } else if members[0].0 == key {
        Some(members[0].1)
    } else {
        member_value(members.drop_first(), key)
    }
}

/// `value[key]`: the member `key` of an object; nothing for other values.
pub open spec fn get_member(value: JsonModel, key: Seq<char>) -> Option<JsonModel> {
    match value {
        JsonModel::Object(members) => member_value(members, key),
        _ => None,
    }
}

/// The first of `items` whose `"name"` member is the string `name`.
pub open spec fn find_named(items: Seq<JsonModel>, name: Seq<char>) -> Option<JsonModel>
    decreases items.len(),
{
    if items.len() == 0 {
        None
    } else if get_member(items[0], "name"@) == Some(JsonModel::String(name)) {
        Some(items[0])
    } else {
        find_named(items.drop_first(), name)
    }
}

/// Looking a name up in two lists one after the other finds it in the first when it is there.
pub proof fn lemma_find_named_concat(a: Seq<JsonModel>, b: Seq<JsonModel>, name: Seq<char>)
    ensures
        find_named(a + b, name) == if find_named(a, name) is Some {
            find_named(a, name)
        } else {
            find_named(b, name)
        },
    decreases a.len(),
{
    if a.len() == 0 {
        assert(a + b =~= b);
    } else {
        assert((a + b).drop_first() =~= a.drop_first() + b);
        lemma_find_named_concat(a.drop_first(), b, name);
    }
}

/// After `obj[key] = value`, `obj[key]` is `value` and every other member is as it was.
pub proof fn lemma_insert_member_lookup(
    members: Seq<(Seq<char>, JsonModel)>,
    key: Seq<char>,
    value: JsonModel,
    other: Seq<char>,
)
    ensures
        member_value(insert_member(members, key, value), key) == Some(value),
        other != key ==> member_value(insert_member(members, key, value), other) == member_value(
            members,
            other,
        ),
    decreases members.len(),
{
    if members.len() > 0 && members[0].0 != key {
        lemma_insert_member_lookup(members.drop_first(), key, value, other);
        let inserted = insert_member(members, key, value);
        assert(inserted[0] == members[0]);
        assert(inserted.drop_first() =~= insert_member(members.drop_first(), key, value));
        if other != key {
            assert(member_value(inserted, other) == member_value(members, other));
        }
    } else if members.len() > 0 {
        let inserted = insert_member(members, key, value);
        assert(inserted.drop_first() =~= members.drop_first());
        if other != key {
            assert(member_value(inserted, other) == member_value(members.drop_first(), other));
        }
    } else {
        let inserted = insert_member(members, key, value);
        assert(inserted.drop_first() =~= Seq::<(Seq<char>, JsonModel)>::empty());
    }
}

/// The JSON array of the strings `values`.
pub open spec fn strings_model(values: Seq<Seq<char>>) -> JsonModel {
    JsonModel::Array(values.map_values(|v: Seq<char>| JsonModel::String(v)))
}

/// Builds the JSON array of the strings `values`.
pub fn strings_to_json(values: &Vec<String>) -> (json: JsonValue)
    ensures
        json@ == strings_model(values.deep_view()),
{
    let mut items: Vec<JsonValue> = Vec::new();
    let n = values.len();
    let mut i: usize = 0;
    while i < n
        invariant
            n == values.len(),
            i <= n,
            items@.len() == i,
            forall|j: int| 0 <= j < i ==> #[trigger] items@[j]@ == JsonModel::String(values@[j]@),
        decreases n - i,
    {
        items.push(JsonValue::String(values[i].clone()));
        i = i + 1;
    }
    assert(values_model(items@) =~= values.deep_view().map_values(
        |v: Seq<char>| JsonModel::String(v),
    ));
    proof {
        lemma_array_view(items);
    }
    JsonValue::Array(items)
}

/// The JSON text that `serde_json::to_string` writes for a value with this model: compact,
/// with the members of each object in key order.
pub uninterp spec fn json_text(value: JsonModel) -> Seq<char>;

/// `serde_json::Value`, carried through opaquely.
#[verifier::external_type_specification]
#[verifier::external_body]
pub struct ExSerdeValue(serde_json::Value);

/// The `serde_json::Value` with the same structure: numbers, strings, arrays and objects
/// one for one, each object member under its key. Nothing is promised of the result here;
/// [`write_json`] states what its text is.
#[verifier::external_body]
fn to_serde(value: &JsonValue) -> serde_json::Value {
    match value {
        JsonValue::Number(n) => serde_json::Value::from(*n),
        JsonValue::String(s) => serde_json::Value::String(s.clone()),
        JsonValue::Array(items) => serde_json::Value::Array(items.iter().map(to_serde).collect()),
        JsonValue::Object(members) => serde_json::Value::Object(
            members.iter().map(|m| (m.key.clone(), to_serde(&m.value))).collect(),
        ),
    }
}

/// Writes `value` as JSON text with `serde_json::to_string`. The contract names the text as
/// a function of the value's model alone ([`json_text`]); what that text looks like is left
/// to serde_json. `to_string` of a `serde_json::Value` does not fail, as every object key
/// is a string.
#[verifier::external_body]
pub fn write_json(value: &JsonValue) -> (text: String)
    ensures
        text@ == json_text(value@),
{
    serde_json::to_string(&to_serde(value)).unwrap_or_default()
}

} // verus!
