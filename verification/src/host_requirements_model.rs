//! The host requirements panel model: the state that the UI edits, the editing
//! operations on its custom entries, and its serialization.
use vstd::prelude::*;

use crate::host_requirements::{AmountModel, AttributeModel};
use crate::json::{json_text, write_json, JsonValue};
use crate::model_state::{
    amount_entries, amount_entry, attribute_entries, attribute_entry, custom_amounts_model,
    custom_attributes_model, non_empty, serialize_from_model_state, state_gib_fits,
    state_json_model, state_requirements, unset_if_negative, HostRequirementsModelState,
};
use crate::text::{
    i32_to_decimal, int_decimal, join_strings, join_with, lemma_decimal_chars,
    lemma_join_split, lemma_parse_decimal_roundtrip, lemma_split_concat, lemma_split_join,
    lemma_split_on_len, lemma_split_pieces_without_sep, lemma_split_without_sep, split_on,
    split_str,
};

verus! {

broadcast use vstd::string::group_string_axioms;

/// `current` with `entry` added as its last `|`-separated entry.
pub open spec fn with_entry_appended(current: Seq<char>, entry: Seq<char>) -> Seq<char> {
    if current.len() == 0 {
        entry
    } else {
        current + seq!['|'] + entry
    }
}

/// The `|`-separated entries of `current` without the one at `index`; all of them when
/// `index` is not the index of an entry.
pub open spec fn entries_without(current: Seq<char>, index: i32) -> Seq<Seq<char>> {
    let entries = split_on(current, '|');
    if 0 <= index < entries.len() {
        entries.remove(index as int)
    } else {
        entries
    }
}

/// `current` without its `|`-separated entry at `index`.
pub open spec fn with_entry_removed(current: Seq<char>, index: i32) -> Seq<char> {
    join_with(entries_without(current, index), seq!['|'])
}

/// `current` with its `|`-separated entry at `index` replaced by `entry`; unchanged when
/// there is no entry at `index`.
pub open spec fn with_entry_replaced(current: Seq<char>, index: i32, entry: Seq<char>) -> Seq<
    char,
> {
    let entries = split_on(current, '|');
    if 0 <= index < entries.len() {
        join_with(entries.update(index as int, entry), seq!['|'])
    } else {
        current
    }
}

/// The entry `name;min;max`, with the bounds in decimal.
pub open spec fn amount_entry_text(name: Seq<char>, min: i32, max: i32) -> Seq<char> {
    name + seq![';'] + int_decimal(min as int) + seq![';'] + int_decimal(max as int)
}

/// The entry `name;option;values`.
pub open spec fn attribute_entry_text(name: Seq<char>, option: Seq<char>, values: Seq<char>) -> Seq<
    char,
> {
    name + seq![';'] + option + seq![';'] + values
}

fn append_entry(current: &String, entry: &str) -> (updated: String)
    ensures
        updated@ == with_entry_appended(current@, entry@),
{
    if current.as_str().is_empty() {
        entry.to_owned()
    } else {
        proof {
            reveal_strlit("|");
            assert("|"@ =~= seq!['|']);
        }
        let mut updated = current.clone();
        updated.append("|");
        updated.append(entry);
        updated
    }
}

fn remove_entry(current: &String, index: i32) -> (updated: String)
    ensures
        updated@ == with_entry_removed(current@, index),
{
    let entries = split_str(current.as_str(), '|');
    let ghost model = entries.deep_view();
    let n = entries.len();
    let mut kept: Vec<String> = Vec::new();
    let mut i: usize = 0;
    while i < n
        invariant
            n == entries.len(),
            model == entries.deep_view(),
            model == split_on(current@, '|'),
            i <= n,
            kept.deep_view() == if 0 <= index < i {
                model.take(i as int).remove(index as int)
            } else {
                model.take(i as int)
            },
        decreases n - i,
    {
        let ghost before = kept.deep_view();
        if !(index >= 0 && i == index as usize) {
            kept.push(entries[i].clone());
            assert(kept.deep_view() =~= before.push(model[i as int]));
        }
        assert(if 0 <= index < i + 1 {
            model.take(i as int + 1).remove(index as int)
        } else {
            model.take(i as int + 1)
        } =~= if 0 <= index < i {
            model.take(i as int).remove(index as int)
        } else {
            model.take(i as int)
        } + if index == i {
            Seq::empty()
        } else {
            seq![model[i as int]]
        });
        i = i + 1;
    }
    assert(model.take(n as int) =~= model);
    proof {
        reveal_strlit("|");
        assert("|"@ =~= seq!['|']);
    }
    join_strings(&kept, "|")
}

fn replace_entry(current: &String, index: i32, entry: String) -> (updated: Option<String>)
    ensures
        match updated {
            Some(u) => 0 <= index < split_on(current@, '|').len() && u@ == with_entry_replaced(
                current@,
                index,
                entry@,
            ),
            None => !(0 <= index < split_on(current@, '|').len()),
        },
{
    let mut entries = split_str(current.as_str(), '|');
    if index >= 0 && (index as usize) < entries.len() {
        let ghost model = entries.deep_view();
        entries.set(index as usize, entry);
        assert(entries.deep_view() =~= model.update(index as int, entry@));
        proof {
            reveal_strlit("|");
            assert("|"@ =~= seq!['|']);
        }
        Some(join_strings(&entries, "|"))
    } else {
        None
    }
}

/// Removing at an index where there is no entry leaves the text as it was.
pub proof fn lemma_remove_missing_entry(current: Seq<char>, index: i32)
    requires
        !(0 <= index < split_on(current, '|').len()),
    ensures
        with_entry_removed(current, index) == current,
{
    lemma_join_split(current, '|');
}

/// Removing an entry leaves exactly the other entries, unless it was the only one, in
/// which case the text is empty.
pub proof fn lemma_removed_entries(current: Seq<char>, index: i32)
    ensures
        entries_without(current, index).len() >= 1 ==> split_on(
            with_entry_removed(current, index),
            '|',
        ) == entries_without(current, index),
        entries_without(current, index).len() == 0 ==> with_entry_removed(current, index)
            == Seq::<char>::empty(),
{
    let rest = entries_without(current, index);
    let entries = split_on(current, '|');
    lemma_split_pieces_without_sep(current, '|');
    if rest.len() >= 1 {
        assert forall|i: int| 0 <= i < rest.len() implies !(#[trigger] rest[i]).contains('|') by {
            if 0 <= index < entries.len() && i >= index {
                assert(rest[i] == entries[i + 1]);
            } else {
                assert(rest[i] == entries[i]);
            }
        }
        lemma_split_join(rest, '|');
    }
}

/// Removing the entry at an index where there is one deletes exactly that entry: the
/// other entries stay, in order, so there is one entry fewer; removing the only entry
/// leaves the empty text.
pub proof fn lemma_remove_deletes_one_entry(current: Seq<char>, index: i32)
    requires
        0 <= index < split_on(current, '|').len(),
    ensures
        split_on(current, '|').len() >= 2 ==> split_on(with_entry_removed(current, index), '|')
            == split_on(current, '|').remove(index as int),
        split_on(current, '|').len() >= 2 ==> split_on(
            with_entry_removed(current, index),
            '|',
        ).len() == split_on(current, '|').len() - 1,
        split_on(current, '|').len() == 1 ==> with_entry_removed(current, index).len() == 0,
{
    lemma_removed_entries(current, index);
}

/// Replacing an entry with one that holds no `|` changes that entry alone.
pub proof fn lemma_replaced_entries(current: Seq<char>, index: i32, entry: Seq<char>)
    requires
        0 <= index < split_on(current, '|').len(),
        !entry.contains('|'),
    ensures
        split_on(with_entry_replaced(current, index, entry), '|') == split_on(
            current,
            '|',
        ).update(index as int, entry),
{
    let entries = split_on(current, '|');
    let updated = entries.update(index as int, entry);
    lemma_split_pieces_without_sep(current, '|');
    assert forall|i: int| 0 <= i < updated.len() implies !(#[trigger] updated[i]).contains('|') by {
        if i != index {
            assert(updated[i] == entries[i]);
        }
    }
    lemma_split_join(updated, '|');
}

/// Appending an entry that holds no `|` adds that entry alone.
pub proof fn lemma_appended_entries(current: Seq<char>, entry: Seq<char>)
    requires
        !entry.contains('|'),
    ensures
        split_on(with_entry_appended(current, entry), '|') == if current.len() == 0 {
            seq![entry]
        } else {
            split_on(current, '|').push(entry)
        },
{
    lemma_split_without_sep(entry, '|');
    if current.len() > 0 {
        lemma_split_concat(current, entry, '|');
    }
}

/// An entry whose first field is empty is skipped, as an amount and as an attribute.
proof fn lemma_nameless_entry(entry: Seq<char>)
    requires
        entry.len() > 0,
        entry[0] == ';',
    ensures
        amount_entry(entry) is None,
        attribute_entry(entry) is None,
{
    let rest = entry.skip(1);
    assert(Seq::<char>::empty() + seq![';'] + rest =~= entry);
    lemma_split_concat(Seq::<char>::empty(), rest, ';');
    lemma_split_on_len(rest, ';');
    assert(split_on(Seq::<char>::empty(), ';') =~= seq![Seq::<char>::empty()]);
}

proof fn lemma_amount_entries_push_skipped(entries: Seq<Seq<char>>, entry: Seq<char>)
    requires
        amount_entry(entry) is None,
        attribute_entry(entry) is None,
    ensures
        amount_entries(entries.push(entry)) == amount_entries(entries),
        attribute_entries(entries.push(entry)) == attribute_entries(entries),
{
    assert(entries.push(entry).drop_last() =~= entries);
}

/// The empty entry is skipped, as an amount and as an attribute.
proof fn lemma_empty_entry()
    ensures
        amount_entry(Seq::empty()) is None,
        attribute_entry(Seq::empty()) is None,
        custom_amounts_model(Seq::empty()) == Seq::<AmountModel>::empty(),
        custom_attributes_model(Seq::empty()) == Seq::<AttributeModel>::empty(),
{
    assert(split_on(Seq::<char>::empty(), ';') =~= seq![Seq::<char>::empty()]);
    assert(split_on(Seq::<char>::empty(), '|') =~= seq![Seq::<char>::empty()]);
    lemma_amount_entries_push_skipped(Seq::empty(), Seq::empty());
    assert(Seq::<Seq<char>>::empty().push(Seq::empty()) =~= seq![Seq::<char>::empty()]);
}

/// Adding a blank custom amount changes no decoded amount: the new entry has no name yet.
pub proof fn lemma_add_custom_amount_decodes_same(current: Seq<char>)
    ensures
        custom_amounts_model(with_entry_appended(current, ";-1;-1"@)) == custom_amounts_model(
            current,
        ),
{
    reveal_strlit(";-1;-1");
    let entry = ";-1;-1"@;
    assert(!entry.contains('|')) by {
        if entry.contains('|') {
            let k = choose|k: int| 0 <= k < entry.len() && entry[k] == '|';
        }
    }
    lemma_appended_entries(current, entry);
    lemma_nameless_entry(entry);
    lemma_empty_entry();
    if current.len() == 0 {
        lemma_amount_entries_push_skipped(Seq::empty(), entry);
        assert(Seq::<Seq<char>>::empty().push(entry) =~= seq![entry]);
    } else {
        lemma_amount_entries_push_skipped(split_on(current, '|'), entry);
    }
}

/// Adding a blank custom attribute changes no decoded attribute: the new entry has no
/// name yet.
pub proof fn lemma_add_custom_attribute_decodes_same(current: Seq<char>)
    ensures
        custom_attributes_model(with_entry_appended(current, ";anyOf;"@))
            == custom_attributes_model(current),
{
    reveal_strlit(";anyOf;");
    let entry = ";anyOf;"@;
    assert(!entry.contains('|')) by {
        if entry.contains('|') {
            let k = choose|k: int| 0 <= k < entry.len() && entry[k] == '|';
        }
    }
    lemma_appended_entries(current, entry);
    lemma_nameless_entry(entry);
    lemma_empty_entry();
    if current.len() == 0 {
        lemma_amount_entries_push_skipped(Seq::empty(), entry);
        assert(Seq::<Seq<char>>::empty().push(entry) =~= seq![entry]);
    } else {
        lemma_amount_entries_push_skipped(split_on(current, '|'), entry);
    }
}

/// Removing a custom amount decodes to the amounts of the other entries.
pub proof fn lemma_remove_custom_amount_decodes(current: Seq<char>, index: i32)
    ensures
        custom_amounts_model(with_entry_removed(current, index)) == amount_entries(
            entries_without(current, index),
        ),
{
    lemma_removed_entries(current, index);
    lemma_empty_entry();
}

/// Removing a custom attribute decodes to the attributes of the other entries.
pub proof fn lemma_remove_custom_attribute_decodes(current: Seq<char>, index: i32)
    ensures
        custom_attributes_model(with_entry_removed(current, index)) == attribute_entries(
            entries_without(current, index),
        ),
{
    lemma_removed_entries(current, index);
    lemma_empty_entry();
}

/// An amount entry written by [`HostRequirementsModelRust::update_custom_amount`] reads back
/// as that amount, when the name is not empty and holds no `;`: negative bounds read as
/// unset.
pub proof fn lemma_amount_entry_roundtrip(name: Seq<char>, min: i32, max: i32)
    requires
        name.len() > 0,
        !name.contains(';'),
    ensures
        amount_entry(amount_entry_text(name, min, max)) == Some(
            AmountModel { name, min: unset_if_negative(min), max: unset_if_negative(max) },
        ),
{
    let lo = int_decimal(min as int);
    let hi = int_decimal(max as int);
    lemma_decimal_chars(min as int, ';');
    lemma_decimal_chars(max as int, ';');
    lemma_parse_decimal_roundtrip(min);
    lemma_parse_decimal_roundtrip(max);
    assert(amount_entry_text(name, min, max) =~= name + seq![';'] + (lo + seq![';'] + hi));
    lemma_split_concat(name, lo + seq![';'] + hi, ';');
    lemma_split_concat(lo, hi, ';');
    lemma_split_without_sep(name, ';');
    lemma_split_without_sep(lo, ';');
    lemma_split_without_sep(hi, ';');
    assert(split_on(amount_entry_text(name, min, max), ';') =~= seq![name, lo, hi]);
}

/// An attribute entry written by [`HostRequirementsModelRust::update_custom_attribute`]
/// reads back as that attribute, when the name is not empty and no field holds a `;`.
pub proof fn lemma_attribute_entry_roundtrip(name: Seq<char>, option: Seq<char>, values: Seq<char>)
    requires
        name.len() > 0,
        !name.contains(';'),
        !option.contains(';'),
        !values.contains(';'),
    ensures
        attribute_entry(attribute_entry_text(name, option, values)) == Some(
            AttributeModel { name, option, values: non_empty(split_on(values, ',')) },
        ),
{
    assert(attribute_entry_text(name, option, values) =~= name + seq![';'] + (option + seq![';']
        + values));
    lemma_split_concat(name, option + seq![';'] + values, ';');
    lemma_split_concat(option, values, ';');
    lemma_split_without_sep(name, ';');
    lemma_split_without_sep(option, ';');
    lemma_split_without_sep(values, ';');
    assert(split_on(attribute_entry_text(name, option, values), ';') =~= seq![
        name,
        option,
        values,
    ]);
}

/// The state behind the host requirements panel. Hardware values of -1 are unset; the
/// custom entries are `|`-separated: `name;min;max` for amounts and `name;option;v1,v2`
/// for attributes.
#[derive(Debug, Clone)]
pub struct HostRequirementsModelRust {
    pub use_custom_requirements: bool,
    pub os_linux: bool,
    pub os_macos: bool,
    pub os_windows: bool,
    pub cpu_x86_64: bool,
    pub cpu_arm64: bool,
    pub cpu_min: i32,
    pub cpu_max: i32,
    pub memory_gib_min: i32,
    pub memory_gib_max: i32,
    pub gpu_min: i32,
    pub gpu_max: i32,
    pub gpu_memory_gib_min: i32,
    pub gpu_memory_gib_max: i32,
    pub scratch_gib_min: i32,
    pub scratch_gib_max: i32,
    pub custom_amounts: String,
    pub custom_attributes: String,
}

/// The panel model as the UI sees it; its methods are the operations the UI invokes.
pub type HostRequirementsModel = HostRequirementsModelRust;

/// Whether `a` and `b` agree on everything but the custom entries.
pub open spec fn same_settings(a: HostRequirementsModelRust, b: HostRequirementsModelRust) -> bool {
    &&& a.use_custom_requirements == b.use_custom_requirements
    &&& a.os_linux == b.os_linux
    &&& a.os_macos == b.os_macos
    &&& a.os_windows == b.os_windows
    &&& a.cpu_x86_64 == b.cpu_x86_64
    &&& a.cpu_arm64 == b.cpu_arm64
    &&& a.cpu_min == b.cpu_min
    &&& a.cpu_max == b.cpu_max
    &&& a.memory_gib_min == b.memory_gib_min
    &&& a.memory_gib_max == b.memory_gib_max
    &&& a.gpu_min == b.gpu_min
    &&& a.gpu_max == b.gpu_max
    &&& a.gpu_memory_gib_min == b.gpu_memory_gib_min
    &&& a.gpu_memory_gib_max == b.gpu_memory_gib_max
    &&& a.scratch_gib_min == b.scratch_gib_min
    &&& a.scratch_gib_max == b.scratch_gib_max
}

/// The UI state that `model` holds.
pub open spec fn model_state_of(model: HostRequirementsModelRust) -> HostRequirementsModelState {
    HostRequirementsModelState {
        use_custom: model.use_custom_requirements,
        os_linux: model.os_linux,
        os_macos: model.os_macos,
        os_windows: model.os_windows,
        cpu_x86_64: model.cpu_x86_64,
        cpu_arm64: model.cpu_arm64,
        cpu_min: model.cpu_min,
        cpu_max: model.cpu_max,
        memory_gib_min: model.memory_gib_min,
        memory_gib_max: model.memory_gib_max,
        gpu_min: model.gpu_min,
        gpu_max: model.gpu_max,
        gpu_memory_gib_min: model.gpu_memory_gib_min,
        gpu_memory_gib_max: model.gpu_memory_gib_max,
        scratch_gib_min: model.scratch_gib_min,
        scratch_gib_max: model.scratch_gib_max,
        custom_amounts: model.custom_amounts,
        custom_attributes: model.custom_attributes,
    }
}

impl Default for HostRequirementsModelRust {
    fn default() -> (model: Self)
        ensures
            !model.use_custom_requirements,
            !model.os_linux && !model.os_macos && !model.os_windows,
            !model.cpu_x86_64 && !model.cpu_arm64,
            model.cpu_min == -1 && model.cpu_max == -1,
            model.memory_gib_min == -1 && model.memory_gib_max == -1,
            model.gpu_min == -1 && model.gpu_max == -1,
            model.gpu_memory_gib_min == -1 && model.gpu_memory_gib_max == -1,
            model.scratch_gib_min == -1 && model.scratch_gib_max == -1,
            model.custom_amounts@.len() == 0,
            model.custom_attributes@.len() == 0,
    {
        HostRequirementsModelRust {
            use_custom_requirements: false,
            os_linux: false,
            os_macos: false,
            os_windows: false,
            cpu_x86_64: false,
            cpu_arm64: false,
            cpu_min: -1,
            cpu_max: -1,
            memory_gib_min: -1,
            memory_gib_max: -1,
            gpu_min: -1,
            gpu_max: -1,
            gpu_memory_gib_min: -1,
            gpu_memory_gib_max: -1,
            scratch_gib_min: -1,
            scratch_gib_max: -1,
            custom_amounts: String::new(),
            custom_attributes: String::new(),
        }
    }
}

impl HostRequirementsModelRust {
    /// The UI state that this model holds.
    pub fn model_state(&self) -> (state: HostRequirementsModelState)
        ensures
            state == model_state_of(*self),
    {
        HostRequirementsModelState {
            use_custom: self.use_custom_requirements,
            os_linux: self.os_linux,
            os_macos: self.os_macos,
            os_windows: self.os_windows,
            cpu_x86_64: self.cpu_x86_64,
            cpu_arm64: self.cpu_arm64,
            cpu_min: self.cpu_min,
            cpu_max: self.cpu_max,
            memory_gib_min: self.memory_gib_min,
            memory_gib_max: self.memory_gib_max,
            gpu_min: self.gpu_min,
            gpu_max: self.gpu_max,
            gpu_memory_gib_min: self.gpu_memory_gib_min,
            gpu_memory_gib_max: self.gpu_memory_gib_max,
            scratch_gib_min: self.scratch_gib_min,
            scratch_gib_max: self.scratch_gib_max,
            custom_amounts: self.custom_amounts.clone(),
            custom_attributes: self.custom_attributes.clone(),
        }
    }

    /// The `hostRequirements` JSON of the current state, or `None` when custom requirements
    /// are disabled or require nothing.
    pub fn serialize(&self) -> (json: Option<JsonValue>)
        requires
            model_state_of(*self).use_custom ==> state_gib_fits(model_state_of(*self)),
        ensures
            match json {
                Some(j) => state_json_model(model_state_of(*self)) == Some(j@),
                None => state_json_model(model_state_of(*self)) is None,
            },
    {
        let state = self.model_state();
        serialize_from_model_state(&state)
    }

    /// The current state as JSON text, or the empty text when custom requirements are
    /// disabled or require nothing.
    pub fn serialize_text(&self) -> (text: String)
        requires
            model_state_of(*self).use_custom ==> state_gib_fits(model_state_of(*self)),
        ensures
            match state_json_model(model_state_of(*self)) {
                Some(j) => text@ == json_text(j),
                None => text@.len() == 0,
            },
    {
        match self.serialize() {
            Some(json) => write_json(&json),
            None => String::new(),
        }
    }

    /// Adds an empty custom amount entry `;-1;-1` at the end.
    pub fn add_custom_amount(&mut self)
        ensures
            same_settings(*final(self), *old(self)),
            final(self).custom_attributes@ == old(self).custom_attributes@,
            final(self).custom_amounts@ == with_entry_appended(
                old(self).custom_amounts@,
                ";-1;-1"@,
            ),
    {
        self.custom_amounts = append_entry(&self.custom_amounts, ";-1;-1");
    }

    /// Removes the custom amount entry at `index`; no entry is removed when there is
    /// none at `index`.
    pub fn remove_custom_amount(&mut self, index: i32)
        ensures
            same_settings(*final(self), *old(self)),
            final(self).custom_attributes@ == old(self).custom_attributes@,
            final(self).custom_amounts@ == with_entry_removed(old(self).custom_amounts@, index),
    {
        self.custom_amounts = remove_entry(&self.custom_amounts, index);
    }

    /// Replaces the custom amount entry at `index` with `name;min;max`; nothing changes
    /// when there is no entry at `index`.
    pub fn update_custom_amount(&mut self, index: i32, name: String, min: i32, max: i32)
        ensures
            same_settings(*final(self), *old(self)),
            final(self).custom_attributes@ == old(self).custom_attributes@,
            final(self).custom_amounts@ == with_entry_replaced(
                old(self).custom_amounts@,
                index,
                amount_entry_text(name@, min, max),
            ),
    {
        proof {
            reveal_strlit(";");
            assert(";"@ =~= seq![';']);
        }
        let mut entry = name;
        entry.append(";");
        entry.append(i32_to_decimal(min).as_str());
        entry.append(";");
        entry.append(i32_to_decimal(max).as_str());
        if let Some(updated) = replace_entry(&self.custom_amounts, index, entry) {
            self.custom_amounts = updated;
        }
    }

    /// Adds an empty custom attribute entry `;anyOf;` at the end.
    pub fn add_custom_attribute(&mut self)
        ensures
            same_settings(*final(self), *old(self)),
            final(self).custom_amounts@ == old(self).custom_amounts@,
            final(self).custom_attributes@ == with_entry_appended(
                old(self).custom_attributes@,
                ";anyOf;"@,
            ),
    {
        self.custom_attributes = append_entry(&self.custom_attributes, ";anyOf;");
    }

    /// Removes the custom attribute entry at `index`; no entry is removed when there is
    /// none at `index`.
    pub fn remove_custom_attribute(&mut self, index: i32)
        ensures
            same_settings(*final(self), *old(self)),
            final(self).custom_amounts@ == old(self).custom_amounts@,
            final(self).custom_attributes@ == with_entry_removed(
                old(self).custom_attributes@,
                index,
            ),
    {
        self.custom_attributes = remove_entry(&self.custom_attributes, index);
    }

    /// Replaces the custom attribute entry at `index` with `name;option;values`; nothing
    /// changes when there is no entry at `index`.
    pub fn update_custom_attribute(
        &mut self,
        index: i32,
        name: String,
        option: String,
        values: String,
    )
        ensures
            same_settings(*final(self), *old(self)),
            final(self).custom_amounts@ == old(self).custom_amounts@,
            final(self).custom_attributes@ == with_entry_replaced(
                old(self).custom_attributes@,
                index,
                attribute_entry_text(name@, option@, values@),
            ),
    {
        proof {
            reveal_strlit(";");
            assert(";"@ =~= seq![';']);
        }
        let mut entry = name;
        entry.append(";");
        entry.append(option.as_str());
        entry.append(";");
        entry.append(values.as_str());
        if let Some(updated) = replace_entry(&self.custom_attributes, index, entry) {
            self.custom_attributes = updated;
        }
    }
}

/// Adding a blank custom amount leaves the serialized requirements as they were.
pub proof fn lemma_add_custom_amount_keeps_json(
    before: HostRequirementsModelRust,
    after: HostRequirementsModelRust,
)
    requires
        same_settings(after, before),
        after.custom_attributes@ == before.custom_attributes@,
        after.custom_amounts@ == with_entry_appended(before.custom_amounts@, ";-1;-1"@),
    ensures
        state_json_model(model_state_of(after)) == state_json_model(model_state_of(before)),
{
    lemma_add_custom_amount_decodes_same(before.custom_amounts@);
    assert(state_requirements(model_state_of(after)) == state_requirements(
        model_state_of(before),
    ));
}

/// Adding a blank custom attribute leaves the serialized requirements as they were.
pub proof fn lemma_add_custom_attribute_keeps_json(
    before: HostRequirementsModelRust,
    after: HostRequirementsModelRust,
)
    requires
        same_settings(after, before),
        after.custom_amounts@ == before.custom_amounts@,
        after.custom_attributes@ == with_entry_appended(before.custom_attributes@, ";anyOf;"@),
    ensures
        state_json_model(model_state_of(after)) == state_json_model(model_state_of(before)),
{
    lemma_add_custom_attribute_decodes_same(before.custom_attributes@);
    assert(state_requirements(model_state_of(after)) == state_requirements(
        model_state_of(before),
    ));
}

} // verus!
