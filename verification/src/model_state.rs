//! The UI model state of the host requirements panel, the encoding of its custom
//! entries, and how that state becomes the `hostRequirements` JSON.
use vstd::prelude::*;

use crate::host_requirements::{
    amount_written, bound_int, host_json_model, lemma_hardware_amounts_written, list_member, AmountModel, AttributeModel, CustomAmountRequirement,
    CustomAttributeRequirement, HardwareRequirements, HostModel, HostRequirements, OsModel,
    OsRequirements,
};
use crate::json::{find_named, lemma_object_view, JsonModel, JsonValue};
use crate::text::{
    chars_of, is_ascii_digit, lemma_split_covers, parse_i32, parse_i32_spec, split_on, split_str,
};

verus! {

broadcast use vstd::string::group_string_axioms;

/// A parsed bound: set when the text is an `i32` of at least zero.
pub open spec fn bound_of(text: Seq<char>) -> Option<i32> {
    match parse_i32_spec(text) {
        Some(v) => if v >= 0 {
            Some(v as i32)
        } else {
            None
        },
        None => None,
    }
}

/// One `name;min;max` entry: kept when it has exactly three fields and a name.
pub open spec fn amount_entry(entry: Seq<char>) -> Option<AmountModel> {
    let fields = split_on(entry, ';');
    if fields.len() != 3 || fields[0].len() == 0 {
        None
    } else {
        Some(AmountModel { name: fields[0], min: bound_of(fields[1]), max: bound_of(fields[2]) })
    }
}

/// The kept entries among `entries`, in order.
pub open spec fn amount_entries(entries: Seq<Seq<char>>) -> Seq<AmountModel>
    decreases entries.len(),
{
    if entries.len() == 0 {
        Seq::empty()
    } else {
        let init = amount_entries(entries.drop_last());
        match amount_entry(entries.last()) {
            Some(a) => init.push(a),
            None => init,
        }
    }
}

/// The custom amounts that `name;min;max|name;min;max` encodes.
pub open spec fn custom_amounts_model(encoded: Seq<char>) -> Seq<AmountModel> {
    amount_entries(split_on(encoded, '|'))
}

/// The non-empty pieces, in order.
pub open spec fn non_empty(pieces: Seq<Seq<char>>) -> Seq<Seq<char>>
    decreases pieces.len(),
{
    if pieces.len() == 0 {
        Seq::empty()
    } else {
        let init = non_empty(pieces.drop_last());
        if pieces.last().len() > 0 {
            init.push(pieces.last())
        } else {
            init
        }
    }
}

/// One `name;option;v1,v2` entry: kept when it has exactly three fields and a name; its
/// values are the non-empty comma-separated pieces of the third field.
pub open spec fn attribute_entry(entry: Seq<char>) -> Option<AttributeModel> {
    let fields = split_on(entry, ';');
    if fields.len() != 3 || fields[0].len() == 0 {
        None
    } else {
        Some(
            AttributeModel {
                name: fields[0],
                option: fields[1],
                values: non_empty(split_on(fields[2], ',')),
            },
        )
    }
}

/// The kept entries among `entries`, in order.
pub open spec fn attribute_entries(entries: Seq<Seq<char>>) -> Seq<AttributeModel>
    decreases entries.len(),
{
    if entries.len() == 0 {
        Seq::empty()
    } else {
        let init = attribute_entries(entries.drop_last());
        match attribute_entry(entries.last()) {
            Some(a) => init.push(a),
            None => init,
        }
    }
}

/// The custom attributes that `name;option;v1,v2|name;option;v1,v2` encodes.
pub open spec fn custom_attributes_model(encoded: Seq<char>) -> Seq<AttributeModel> {
    attribute_entries(split_on(encoded, '|'))
}

fn parse_bound(text: &str) -> (bound: Option<i32>)
    ensures
        bound == bound_of(text@),
{
    match parse_i32(text) {
        Some(v) => if v >= 0 {
            Some(v)
        } else {
            None
        },
        None => None,
    }
}

/// Decodes the custom amounts of the UI state: `name;min;max` entries separated by `|`.
/// Entries without exactly three fields or without a name are skipped; a bound that is
/// not a non-negative `i32` is unset.
pub fn parse_custom_amounts(encoded: &str) -> (amounts: Vec<CustomAmountRequirement>)
    ensures
        amounts@.map_values(|a: CustomAmountRequirement| a@) == custom_amounts_model(encoded@),
{
    let mut amounts: Vec<CustomAmountRequirement> = Vec::new();
    if encoded.is_empty() {
        assert(split_on(encoded@, '|') =~= seq![Seq::<char>::empty()]);
        assert(split_on(Seq::<char>::empty(), ';') =~= seq![Seq::<char>::empty()]);
        assert(amount_entries(split_on(encoded@, '|').drop_last()) =~= Seq::<AmountModel>::empty());
        assert(amounts@.map_values(|a: CustomAmountRequirement| a@) =~= custom_amounts_model(encoded@));
        return amounts;
    }
    let entries = split_str(encoded, '|');
    let ghost entries_model = entries.deep_view();
    let n = entries.len();
    let mut i: usize = 0;
    while i < n
        invariant
            n == entries.len(),
            i <= n,
            entries_model == entries.deep_view(),
            entries_model == split_on(encoded@, '|'),
            amounts@.map_values(|a: CustomAmountRequirement| a@) == amount_entries(
                entries_model.take(i as int),
            ),
        decreases n - i,
    {
        assert(entries_model.take(i as int + 1).drop_last() =~= entries_model.take(i as int));
        let fields = split_str(entries[i].as_str(), ';');
        let ghost before = amounts@.map_values(|a: CustomAmountRequirement| a@);
        if fields.len() == 3 && !fields[0].as_str().is_empty() {
            let min = parse_bound(fields[1].as_str());
            let max = parse_bound(fields[2].as_str());
            amounts.push(CustomAmountRequirement { name: fields[0].clone(), min, max });
            assert(amounts@.map_values(|a: CustomAmountRequirement| a@) =~= before.push(
                amount_entry(entries_model[i as int])->Some_0,
            ));
        }
        i = i + 1;
    }
    assert(entries_model.take(n as int) =~= entries_model);
    amounts
}

/// The non-empty strings among `pieces`, in order.
fn non_empty_strings(pieces: &Vec<String>) -> (kept: Vec<String>)
    ensures
        kept.deep_view() == non_empty(pieces.deep_view()),
{
    let ghost model = pieces.deep_view();
    let mut kept: Vec<String> = Vec::new();
    let n = pieces.len();
    let mut i: usize = 0;
    while i < n
        invariant
            n == pieces.len(),
            i <= n,
            model == pieces.deep_view(),
            kept.deep_view() == non_empty(model.take(i as int)),
        decreases n - i,
    {
        assert(model.take(i as int + 1).drop_last() =~= model.take(i as int));
        let ghost before = kept.deep_view();
        if !pieces[i].as_str().is_empty() {
            kept.push(pieces[i].clone());
            assert(kept.deep_view() =~= before.push(model[i as int]));
        }
        i = i + 1;
    }
    assert(model.take(n as int) =~= model);
    kept
}

/// Decodes the custom attributes of the UI state: `name;option;v1,v2` entries separated
/// by `|`. Entries without exactly three fields or without a name are skipped; empty
/// values are dropped.
pub fn parse_custom_attributes(encoded: &str) -> (attributes: Vec<CustomAttributeRequirement>)
    ensures
        attributes@.map_values(|a: CustomAttributeRequirement| a@) == custom_attributes_model(
            encoded@,
        ),
{
    let mut attributes: Vec<CustomAttributeRequirement> = Vec::new();
    if encoded.is_empty() {
        assert(split_on(encoded@, '|') =~= seq![Seq::<char>::empty()]);
        assert(split_on(Seq::<char>::empty(), ';') =~= seq![Seq::<char>::empty()]);
        assert(attribute_entries(split_on(encoded@, '|').drop_last())
            =~= Seq::<AttributeModel>::empty());
        assert(attributes@.map_values(|a: CustomAttributeRequirement| a@)
            =~= custom_attributes_model(encoded@));
        return attributes;
    }
    let entries = split_str(encoded, '|');
    let ghost entries_model = entries.deep_view();
    let n = entries.len();
    let mut i: usize = 0;
    while i < n
        invariant
            n == entries.len(),
            i <= n,
            entries_model == entries.deep_view(),
            entries_model == split_on(encoded@, '|'),
            attributes@.map_values(|a: CustomAttributeRequirement| a@) == attribute_entries(
                entries_model.take(i as int),
            ),
        decreases n - i,
    {
        assert(entries_model.take(i as int + 1).drop_last() =~= entries_model.take(i as int));
        let fields = split_str(entries[i].as_str(), ';');
        let ghost before = attributes@.map_values(|a: CustomAttributeRequirement| a@);
        if fields.len() == 3 && !fields[0].as_str().is_empty() {
            let pieces = split_str(fields[2].as_str(), ',');
            let values = non_empty_strings(&pieces);
            attributes.push(
                CustomAttributeRequirement {
                    name: fields[0].clone(),
                    option: fields[1].clone(),
                    values,
                },
            );
            assert(attributes@.map_values(|a: CustomAttributeRequirement| a@) =~= before.push(
                attribute_entry(entries_model[i as int])->Some_0,
            ));
        }
        i = i + 1;
    }
    assert(entries_model.take(n as int) =~= entries_model);
    attributes
}

/// Whether `c` is an ASCII letter.
pub open spec fn is_ascii_letter(c: char) -> bool {
    ('a' <= c && c <= 'z') || ('A' <= c && c <= 'Z')
}

/// Whether `c` may start a name segment: `[a-zA-Z_]`.
pub open spec fn is_segment_start(c: char) -> bool {
    is_ascii_letter(c) || c == '_'
}

/// Whether `c` may appear in a name segment: `[a-zA-Z0-9_]`.
pub open spec fn is_segment_char(c: char) -> bool {
    is_ascii_letter(c) || is_ascii_digit(c) || c == '_'
}

/// A segment `[a-zA-Z_][a-zA-Z0-9_]{0,63}`.
pub open spec fn valid_segment(segment: Seq<char>) -> bool {
    &&& 1 <= segment.len() <= 64
    &&& is_segment_start(segment[0])
    &&& forall|i: int| 0 <= i < segment.len() ==> is_segment_char(#[trigger] segment[i])
}

/// A custom requirement name by the OpenJD naming rules:
/// `^([a-zA-Z_][a-zA-Z0-9_]{0,63})(\.[a-zA-Z_][a-zA-Z0-9_]{0,63})*$`.
pub open spec fn valid_custom_name(name: Seq<char>) -> bool {
    let segments = split_on(name, '.');
    &&& name.len() > 0
    &&& forall|i: int| 0 <= i < segments.len() ==> valid_segment(#[trigger] segments[i])
}

/// A name that [`validate_custom_name`] accepts holds neither `;` nor `|`, so the
/// custom entries it is written into read back.
pub proof fn lemma_valid_name_is_plain(name: Seq<char>)
    requires
        valid_custom_name(name),
    ensures
        name.len() > 0,
        !name.contains(';'),
        !name.contains('|'),
{
    let segments = split_on(name, '.');
    assert forall|k: int| 0 <= k < name.len() implies name[k] == '.' || is_segment_char(
        #[trigger] name[k],
    ) by {
        lemma_split_covers(name, '.', k);
        if name[k] != '.' {
            let (i, j) = choose|i: int, j: int|
                0 <= i < segments.len() && 0 <= j < segments[i].len() && segments[i][j]
                    == name[k];
            assert(valid_segment(segments[i]));
            assert(is_segment_char(segments[i][j]));
        }
    }
}

/// `a` and `b` are the same character, or the same ASCII letter in the other case.
pub open spec fn same_up_to_ascii_case(a: char, b: char) -> bool {
    ||| a == b
    ||| 'a' <= a && a <= 'z' && b as int == a as int - 32
    ||| 'A' <= a && a <= 'Z' && b as int == a as int + 32
}

proof fn lemma_split_same_case(a: Seq<char>, b: Seq<char>, sep: char)
    requires
        a.len() == b.len(),
        forall|i: int| 0 <= i < a.len() ==> same_up_to_ascii_case(#[trigger] a[i], b[i]),
        !is_ascii_letter(sep),
    ensures
        split_on(a, sep).len() == split_on(b, sep).len(),
        forall|k: int|
            0 <= k < split_on(a, sep).len() ==> (#[trigger] split_on(a, sep)[k]).len() == split_on(
                b,
                sep,
            )[k].len(),
        forall|k: int, j: int|
            0 <= k < split_on(a, sep).len() && 0 <= j < split_on(a, sep)[k].len()
                ==> same_up_to_ascii_case(#[trigger] split_on(a, sep)[k][j], split_on(b, sep)[k][j]),
    decreases a.len(),
{
    if a.len() > 0 {
        let a0 = a.drop_last();
        let b0 = b.drop_last();
        assert forall|i: int| 0 <= i < a0.len() implies same_up_to_ascii_case(
            #[trigger] a0[i],
            b0[i],
        ) by {
            assert(a0[i] == a[i] && b0[i] == b[i]);
        }
        lemma_split_same_case(a0, b0, sep);
        crate::text::lemma_split_on_len(a0, sep);
        assert(same_up_to_ascii_case(a[a.len() - 1], b[b.len() - 1]));
        assert((a.last() == sep) == (b.last() == sep));
        let pa = split_on(a0, sep);
        let pb = split_on(b0, sep);
        let qa = split_on(a, sep);
        let qb = split_on(b, sep);
        assert forall|k: int, j: int|
            0 <= k < qa.len() && 0 <= j < qa[k].len() implies same_up_to_ascii_case(
            #[trigger] qa[k][j],
            qb[k][j],
        ) by {
            if a.last() != sep && k == qa.len() - 1 && j == qa[k].len() - 1 {
                assert(qa[k][j] == a.last() && qb[k][j] == b.last());
            } else if k < pa.len() {
                assert(qa[k][j] == pa[k][j] && qb[k][j] == pb[k][j]);
            }
        }
    }
}

/// Validity does not depend on the case of ASCII letters: a name and the same name with
/// any of its letters in the other case are both valid or both invalid.
pub proof fn lemma_valid_name_ignores_case(a: Seq<char>, b: Seq<char>)
    requires
        a.len() == b.len(),
        forall|i: int| 0 <= i < a.len() ==> same_up_to_ascii_case(#[trigger] a[i], b[i]),
    ensures
        valid_custom_name(a) == valid_custom_name(b),
{
    lemma_split_same_case(a, b, '.');
    let sa = split_on(a, '.');
    let sb = split_on(b, '.');
    assert forall|k: int| 0 <= k < sa.len() implies valid_segment(#[trigger] sa[k])
        == valid_segment(sb[k]) by {
        let p = sa[k];
        let q = sb[k];
        assert(p.len() == q.len());
        assert forall|j: int| 0 <= j < p.len() implies is_segment_char(#[trigger] p[j])
            == is_segment_char(q[j]) && is_segment_start(p[j]) == is_segment_start(q[j]) by {
            assert(same_up_to_ascii_case(p[j], q[j]));
        }
        if valid_segment(p) {
            assert(is_segment_start(p[0]));
            assert forall|j: int| 0 <= j < q.len() implies is_segment_char(#[trigger] q[j]) by {
                assert(is_segment_char(p[j]));
            }
        }
        if valid_segment(q) {
            assert(is_segment_start(q[0]));
            assert(is_segment_char(p[0]) == is_segment_char(q[0]));
            assert forall|j: int| 0 <= j < p.len() implies is_segment_char(#[trigger] p[j]) by {
                assert(is_segment_char(q[j]));
            }
        }
    }
    if valid_custom_name(a) {
        assert forall|k: int| 0 <= k < sb.len() implies valid_segment(#[trigger] sb[k]) by {
            assert(valid_segment(sa[k]));
        }
    }
    if valid_custom_name(b) {
        assert forall|k: int| 0 <= k < sa.len() implies valid_segment(#[trigger] sa[k]) by {
            assert(valid_segment(sb[k]));
        }
    }
}

/// The characters a valid name is made of: it is not empty, and each dot-separated
/// segment has 1 to 64 characters, begins with an ASCII letter of either case or `_`, and
/// holds only ASCII letters of either case, ASCII digits and `_`.
pub proof fn lemma_valid_name_characters(name: Seq<char>)
    ensures
        valid_custom_name(name) <==> (name.len() > 0 && forall|k: int|
            0 <= k < split_on(name, '.').len() ==> {
                let segment = #[trigger] split_on(name, '.')[k];
                &&& 1 <= segment.len() <= 64
                &&& ('a' <= segment[0] <= 'z' || 'A' <= segment[0] <= 'Z' || segment[0] == '_')
                &&& forall|j: int|
                    0 <= j < segment.len() ==> ('a' <= #[trigger] segment[j] <= 'z' || 'A'
                        <= segment[j] <= 'Z' || '0' <= segment[j] <= '9' || segment[j] == '_')
            }),
{
}

fn check_segment(segment: &str) -> (ok: bool)
    ensures
        ok == valid_segment(segment@),
{
    let cs = chars_of(segment);
    let n = cs.len();
    if n == 0 || n > 64 {
        return false;
    }
    let first = cs[0];
    if !(('a' <= first && first <= 'z') || ('A' <= first && first <= 'Z') || first == '_') {
        return false;
    }
    let mut i: usize = 0;
    while i < n
        invariant
            n == cs.len(),
            cs@ == segment@,
            i <= n,
            forall|j: int| 0 <= j < i ==> is_segment_char(#[trigger] cs@[j]),
        decreases n - i,
    {
        let c = cs[i];
        if !(('a' <= c && c <= 'z') || ('A' <= c && c <= 'Z') || ('0' <= c && c <= '9') || c
            == '_') {
            assert(!is_segment_char(cs@[i as int]));
            return false;
        }
        i = i + 1;
    }
    true
}

/// Validates a custom requirement name against the OpenJD naming rules:
/// dot-separated segments, each a letter or `_` followed by at most 63 letters,
/// digits or `_`.
pub fn validate_custom_name(name: &str) -> (valid: bool)
    ensures
        valid == valid_custom_name(name@),
{
    if name.is_empty() {
        return false;
    }
    let segments = split_str(name, '.');
    let ghost model = segments.deep_view();
    let n = segments.len();
    let mut i: usize = 0;
    while i < n
        invariant
            n == segments.len(),
            model == segments.deep_view(),
            model == split_on(name@, '.'),
            i <= n,
            forall|j: int| 0 <= j < i ==> valid_segment(#[trigger] model[j]),
        decreases n - i,
    {
        if !check_segment(segments[i].as_str()) {
            assert(!valid_segment(model[i as int]));
            return false;
        }
        i = i + 1;
    }
    true
}

/// UI model state used by [`serialize_from_model_state`].
#[derive(Debug, Clone)]
pub struct HostRequirementsModelState {
    pub use_custom: bool,
    pub os_linux: bool,
    pub os_macos: bool,
    pub os_windows: bool,
    pub cpu_x86_64: bool,
    pub cpu_arm64: bool,
    /// Hardware values in GiB (for memory/gpu_memory/scratch). -1 = unset.
    pub cpu_min: i32,
    pub cpu_max: i32,
    pub memory_gib_min: i32,
    pub memory_gib_max: i32,
    pub gpu_min: i32,
    pub gpu_max: i32,
    pub gpu_memory_gib_min: i32,
    pub gpu_memory_gib_max: i32,
    pub scratch_gib_min: i32,
    pub scratch_gib_max: i32,
    /// Pipe-separated entries: "name;min;max|name;min;max"
    pub custom_amounts: String,
    /// Pipe-separated entries: "name;option;v1,v2|name;option;v1,v2"
    pub custom_attributes: String,
}

impl Default for HostRequirementsModelState {
    fn default() -> (state: Self)
        ensures
            !state.use_custom,
            !state.os_linux && !state.os_macos && !state.os_windows,
            !state.cpu_x86_64 && !state.cpu_arm64,
            state.cpu_min == 0 && state.cpu_max == 0,
            state.memory_gib_min == 0 && state.memory_gib_max == 0,
            state.gpu_min == 0 && state.gpu_max == 0,
            state.gpu_memory_gib_min == 0 && state.gpu_memory_gib_max == 0,
            state.scratch_gib_min == 0 && state.scratch_gib_max == 0,
            state.custom_amounts@.len() == 0,
            state.custom_attributes@.len() == 0,
    {
        HostRequirementsModelState {
            use_custom: false,
            os_linux: false,
            os_macos: false,
            os_windows: false,
            cpu_x86_64: false,
            cpu_arm64: false,
            cpu_min: 0,
            cpu_max: 0,
            memory_gib_min: 0,
            memory_gib_max: 0,
            gpu_min: 0,
            gpu_max: 0,
            gpu_memory_gib_min: 0,
            gpu_memory_gib_max: 0,
            scratch_gib_min: 0,
            scratch_gib_max: 0,
            custom_amounts: String::new(),
            custom_attributes: String::new(),
        }
    }
}

/// A UI value: negative means unset.
pub open spec fn unset_if_negative(v: i32) -> Option<i32> {
    if v < 0 {
        None
    } else {
        Some(v)
    }
}

/// A UI value in GiB as MiB: negative means unset.
pub open spec fn gib_as_mib(v: i32) -> Option<i32> {
    if v < 0 {
        None
    } else {
        Some((v * 1024) as i32)
    }
}

/// Whether a value in GiB can be given in MiB as an `i32`.
pub open spec fn gib_fits(v: i32) -> bool {
    v * 1024 <= i32::MAX
}

/// Whether every GiB value of the state can be given in MiB as an `i32`.
pub open spec fn state_gib_fits(state: HostRequirementsModelState) -> bool {
    &&& gib_fits(state.memory_gib_min)
    &&& gib_fits(state.memory_gib_max)
    &&& gib_fits(state.gpu_memory_gib_min)
    &&& gib_fits(state.gpu_memory_gib_max)
    &&& gib_fits(state.scratch_gib_min)
    &&& gib_fits(state.scratch_gib_max)
}

/// `value` when `flag` is set, and nothing otherwise.
pub open spec fn flagged(flag: bool, value: Seq<char>) -> Seq<Seq<char>> {
    if flag {
        seq![value]
    } else {
        Seq::empty()
    }
}

/// The host requirements that the UI state describes.
pub open spec fn state_requirements(state: HostRequirementsModelState) -> HostModel {
    HostModel {
        os: OsModel {
            operating_systems: flagged(state.os_linux, "linux"@) + flagged(state.os_macos, "macos"@)
                + flagged(state.os_windows, "windows"@),
            cpu_architectures: flagged(state.cpu_x86_64, "x86_64"@) + flagged(
                state.cpu_arm64,
                "arm64"@,
            ),
        },
        hardware: HardwareRequirements {
            cpu_min: unset_if_negative(state.cpu_min),
            cpu_max: unset_if_negative(state.cpu_max),
            memory_min: gib_as_mib(state.memory_gib_min),
            memory_max: gib_as_mib(state.memory_gib_max),
            gpu_min: unset_if_negative(state.gpu_min),
            gpu_max: unset_if_negative(state.gpu_max),
            gpu_memory_min: gib_as_mib(state.gpu_memory_gib_min),
            gpu_memory_max: gib_as_mib(state.gpu_memory_gib_max),
            scratch_min: gib_as_mib(state.scratch_gib_min),
            scratch_max: gib_as_mib(state.scratch_gib_max),
        },
        custom_amounts: custom_amounts_model(state.custom_amounts@),
        custom_attributes: custom_attributes_model(state.custom_attributes@),
    }
}

/// The `hostRequirements` JSON of the UI state: none when custom requirements are off,
/// or when they are on but require nothing.
pub open spec fn state_json_model(state: HostRequirementsModelState) -> Option<JsonModel> {
    if !state.use_custom {
        None
    } else {
        let json = host_json_model(state_requirements(state));
        if json->Object_0.len() == 0 {
            None
        } else {
            Some(json)
        }
    }
}

/// Whether two UI values mean the same: equal, or both negative (unset).
pub open spec fn same_ui_value(a: i32, b: i32) -> bool {
    a == b || (a < 0 && b < 0)
}

/// Every negative UI value means unset: states that differ only in which negative
/// values they hold give the same JSON.
pub proof fn lemma_negative_values_mean_unset(
    s1: HostRequirementsModelState,
    s2: HostRequirementsModelState,
)
    requires
        s1.use_custom == s2.use_custom,
        s1.os_linux == s2.os_linux,
        s1.os_macos == s2.os_macos,
        s1.os_windows == s2.os_windows,
        s1.cpu_x86_64 == s2.cpu_x86_64,
        s1.cpu_arm64 == s2.cpu_arm64,
        same_ui_value(s1.cpu_min, s2.cpu_min),
        same_ui_value(s1.cpu_max, s2.cpu_max),
        same_ui_value(s1.memory_gib_min, s2.memory_gib_min),
        same_ui_value(s1.memory_gib_max, s2.memory_gib_max),
        same_ui_value(s1.gpu_min, s2.gpu_min),
        same_ui_value(s1.gpu_max, s2.gpu_max),
        same_ui_value(s1.gpu_memory_gib_min, s2.gpu_memory_gib_min),
        same_ui_value(s1.gpu_memory_gib_max, s2.gpu_memory_gib_max),
        same_ui_value(s1.scratch_gib_min, s2.scratch_gib_min),
        same_ui_value(s1.scratch_gib_max, s2.scratch_gib_max),
        s1.custom_amounts@ == s2.custom_amounts@,
        s1.custom_attributes@ == s2.custom_attributes@,
    ensures
        state_json_model(s1) == state_json_model(s2),
{
    assert(state_requirements(s1) == state_requirements(s2));
}

/// A UI value as a bound: set exactly when it is at least zero, and then that value.
pub open spec fn ui_bound(v: i32) -> Option<int> {
    if v >= 0 {
        Some(v as int)
    } else {
        None
    }
}

/// A UI value in GiB as a bound in MiB: set exactly when it is at least zero.
pub open spec fn ui_bound_mib(v: i32) -> Option<int> {
    if v >= 0 {
        Some(v * 1024)
    } else {
        None
    }
}

/// The amount entries in the JSON of `state`; none when it serializes to nothing.
pub open spec fn state_amounts(state: HostRequirementsModelState) -> Seq<JsonModel> {
    match state_json_model(state) {
        Some(json) => list_member(json, "amounts"@),
        None => Seq::empty(),
    }
}

/// Each hardware value of an enabled state is written under its own resource: when a
/// resource's minimum or maximum is at least zero, the first amount entry with the
/// resource's name has `"min"` exactly when the state's minimum is at least zero, and then
/// that minimum (in MiB for the GiB values), and likewise `"max"` from the state's
/// maximum alone.
pub proof fn lemma_state_hardware_bounds(state: HostRequirementsModelState)
    requires
        state.use_custom,
        state_gib_fits(state),
    ensures
        amount_written(
            state_amounts(state),
            "amount.worker.vcpu"@,
            ui_bound(state.cpu_min),
            ui_bound(state.cpu_max),
        ),
        amount_written(
            state_amounts(state),
            "amount.worker.memory"@,
            ui_bound_mib(state.memory_gib_min),
            ui_bound_mib(state.memory_gib_max),
        ),
        amount_written(
            state_amounts(state),
            "amount.worker.gpu"@,
            ui_bound(state.gpu_min),
            ui_bound(state.gpu_max),
        ),
        amount_written(
            state_amounts(state),
            "amount.worker.gpu.memory"@,
            ui_bound_mib(state.gpu_memory_gib_min),
            ui_bound_mib(state.gpu_memory_gib_max),
        ),
        amount_written(
            state_amounts(state),
            "amount.worker.disk.scratch"@,
            ui_bound_mib(state.scratch_gib_min),
            ui_bound_mib(state.scratch_gib_max),
        ),
{
    let h = state_requirements(state);
    lemma_hardware_amounts_written(h);
    let json = host_json_model(h);
    let hw = h.hardware;
    assert(bound_int(hw.cpu_min) == ui_bound(state.cpu_min));
    assert(bound_int(hw.cpu_max) == ui_bound(state.cpu_max));
    assert(bound_int(hw.gpu_min) == ui_bound(state.gpu_min));
    assert(bound_int(hw.gpu_max) == ui_bound(state.gpu_max));
    assert(bound_int(hw.memory_min) == ui_bound_mib(state.memory_gib_min));
    assert(bound_int(hw.memory_max) == ui_bound_mib(state.memory_gib_max));
    assert(bound_int(hw.gpu_memory_min) == ui_bound_mib(state.gpu_memory_gib_min));
    assert(bound_int(hw.gpu_memory_max) == ui_bound_mib(state.gpu_memory_gib_max));
    assert(bound_int(hw.scratch_min) == ui_bound_mib(state.scratch_gib_min));
    assert(bound_int(hw.scratch_max) == ui_bound_mib(state.scratch_gib_max));
    if list_member(json, "amounts"@).len() > 0 {
        assert(json->Object_0.len() > 0);
        assert(state_amounts(state) == list_member(json, "amounts"@));
    } else {
        assert(find_named(Seq::<JsonModel>::empty(), "amount.worker.vcpu"@) is None);
        assert(find_named(Seq::<JsonModel>::empty(), "amount.worker.memory"@) is None);
        assert(find_named(Seq::<JsonModel>::empty(), "amount.worker.gpu"@) is None);
        assert(find_named(Seq::<JsonModel>::empty(), "amount.worker.gpu.memory"@) is None);
        assert(find_named(Seq::<JsonModel>::empty(), "amount.worker.disk.scratch"@) is None);
        assert(list_member(json, "amounts"@) =~= Seq::<JsonModel>::empty());
    }
}

fn unset_if_negative_exec(v: i32) -> (bound: Option<i32>)
    ensures
        bound == unset_if_negative(v),
{
    if v < 0 {
        None
    } else {
        Some(v)
    }
}

fn gib_as_mib_exec(v: i32) -> (bound: Option<i32>)
    requires
        gib_fits(v),
    ensures
        bound == gib_as_mib(v),
{
    if v < 0 {
        None
    } else {
        Some(v * 1024)
    }
}

/// Converts the UI state to the `hostRequirements` JSON, or `None` when custom
/// requirements are disabled or require nothing.
pub fn serialize_from_model_state(state: &HostRequirementsModelState) -> (json: Option<JsonValue>)
    requires
        state.use_custom ==> state_gib_fits(*state),
    ensures
        match json {
            Some(j) => state_json_model(*state) == Some(j@),
            None => state_json_model(*state) is None,
        },
{
    if !state.use_custom {
        return None;
    }
    let mut os_list: Vec<String> = Vec::new();
    if state.os_linux {
        os_list.push("linux".to_owned());
    }
    if state.os_macos {
        os_list.push("macos".to_owned());
    }
    if state.os_windows {
        os_list.push("windows".to_owned());
    }
    let mut arch_list: Vec<String> = Vec::new();
    if state.cpu_x86_64 {
        arch_list.push("x86_64".to_owned());
    }
    if state.cpu_arm64 {
        arch_list.push("arm64".to_owned());
    }
    let ghost model = state_requirements(*state);
    assert(os_list.deep_view() =~= model.os.operating_systems);
    assert(arch_list.deep_view() =~= model.os.cpu_architectures);

    let hr = HostRequirements {
        os: OsRequirements { operating_systems: os_list, cpu_architectures: arch_list },
        hardware: HardwareRequirements {
            cpu_min: unset_if_negative_exec(state.cpu_min),
            cpu_max: unset_if_negative_exec(state.cpu_max),
            memory_min: gib_as_mib_exec(state.memory_gib_min),
            memory_max: gib_as_mib_exec(state.memory_gib_max),
            gpu_min: unset_if_negative_exec(state.gpu_min),
            gpu_max: unset_if_negative_exec(state.gpu_max),
            gpu_memory_min: gib_as_mib_exec(state.gpu_memory_gib_min),
            gpu_memory_max: gib_as_mib_exec(state.gpu_memory_gib_max),
            scratch_min: gib_as_mib_exec(state.scratch_gib_min),
            scratch_max: gib_as_mib_exec(state.scratch_gib_max),
        },
        custom_amounts: parse_custom_amounts(state.custom_amounts.as_str()),
        custom_attributes: parse_custom_attributes(state.custom_attributes.as_str()),
    };
    assert(hr@ == model);
    let result = hr.serialize();
    let is_empty = match &result {
        JsonValue::Object(members) => {
            proof {
                lemma_object_view(*members);
            }
            members.len() == 0
        },
        _ => false,
    };
    if is_empty {
        None
    } else {
        Some(result)
    }
}

} // verus!
