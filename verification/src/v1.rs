//! Version 1 of the schema: the boot specification of one configuration and
//! the generation made of it and of its specialisations.
use crate::error::{comes_to, Expected, Mismatch, MismatchView};
use crate::json::{item_models, models, Json, JsonValue};
use crate::text::{
    lemma_text_before_irreflexive, lemma_text_before_transitive, text_before, texts,
};
use crate::textmap::{
    enumerates, lemma_entry_smaller, lemma_pairs_decrease, lemma_pairs_ends,
    lemma_pairs_enumerate, lemma_pairs_index, lemma_pairs_len, lemma_pairs_step,
    lemma_sorted_distinct, pairs_map, sorted_insert, sorted_keys, sorted_slot, TextKey, TextMap,
};
use crate::{SpecialisationName, SystemConfigurationRoot};
use vstd::prelude::*;
use vstd::string::*;

verus! {

/// The number of this version of the schema.
pub const SCHEMA_VERSION: u64 = 1;

/// The key under which a document of this version holds its boot
/// specification.
pub const BOOTSPEC_KEY: &'static str = "org.nixos.bootspec.v1";

/// The key under which a document of this version holds its specialisations.
pub const SPECIALISATION_KEY: &'static str = "org.nixos.specialisation.v1";

/// The field of a boot specification that holds the label.
pub const LABEL: &'static str = "label";

/// The field that holds the path of the kernel image.
pub const KERNEL: &'static str = "kernel";

/// The field that holds the kernel parameters.
pub const KERNEL_PARAMS: &'static str = "kernelParams";

/// The field that holds the path of the init program.
pub const INIT: &'static str = "init";

/// The field that holds the path of the initrd.
pub const INITRD: &'static str = "initrd";

/// The field that holds the path of the program that appends secrets to
/// the initrd.
pub const INITRD_SECRETS: &'static str = "initrdSecrets";

/// The field that holds the system.
pub const SYSTEM: &'static str = "system";

/// The field that holds the root of the configuration.
pub const TOPLEVEL: &'static str = "toplevel";

/// The names of the fields of a boot specification are eight different
/// texts.
pub proof fn lemma_field_names()
    ensures
        LABEL@ != KERNEL@ && LABEL@ != KERNEL_PARAMS@ && LABEL@ != INIT@ && LABEL@ != INITRD@
            && LABEL@ != INITRD_SECRETS@ && LABEL@ != SYSTEM@ && LABEL@ != TOPLEVEL@,
        KERNEL@ != KERNEL_PARAMS@ && KERNEL@ != INIT@ && KERNEL@ != INITRD@ && KERNEL@
            != INITRD_SECRETS@ && KERNEL@ != SYSTEM@ && KERNEL@ != TOPLEVEL@,
        KERNEL_PARAMS@ != INIT@ && KERNEL_PARAMS@ != INITRD@ && KERNEL_PARAMS@ != INITRD_SECRETS@
            && KERNEL_PARAMS@ != SYSTEM@ && KERNEL_PARAMS@ != TOPLEVEL@,
        INIT@ != INITRD@ && INIT@ != INITRD_SECRETS@ && INIT@ != SYSTEM@ && INIT@ != TOPLEVEL@,
        INITRD@ != INITRD_SECRETS@ && INITRD@ != SYSTEM@ && INITRD@ != TOPLEVEL@,
        INITRD_SECRETS@ != SYSTEM@ && INITRD_SECRETS@ != TOPLEVEL@,
        SYSTEM@ != TOPLEVEL@,
{
    reveal_strlit("label");
    reveal_strlit("kernel");
    reveal_strlit("kernelParams");
    reveal_strlit("init");
    reveal_strlit("initrd");
    reveal_strlit("initrdSecrets");
    reveal_strlit("system");
    reveal_strlit("toplevel");
    assert(LABEL@.len() == 5 && KERNEL@.len() == 6 && KERNEL_PARAMS@.len() == 12);
    assert(INIT@.len() == 4 && INITRD@.len() == 6 && INITRD_SECRETS@.len() == 13);
    assert(SYSTEM@.len() == 6 && TOPLEVEL@.len() == 8);
    assert(KERNEL@[0] == 'k' && SYSTEM@[0] == 's' && INITRD@[0] == 'i');
}

/// The view of an optional text.
pub open spec fn optional_text(o: Option<String>) -> Option<Seq<char>> {
    match o {
        Some(s) => Some(s@),
        None => None,
    }
}

/// The model of a boot specification.
pub struct BootSpecV1View {
    pub label: Seq<char>,
    pub kernel: Seq<char>,
    pub kernel_params: Seq<Seq<char>>,
    pub init: Seq<char>,
    pub initrd: Option<Seq<char>>,
    pub initrd_secrets: Option<Seq<char>>,
    pub system: Seq<char>,
    pub toplevel: Seq<char>,
}

/// How one configuration is booted.
#[derive(Debug, Clone, PartialEq, Eq)]
pub struct BootSpecV1 {
    /// The label of the configuration.
    pub label: String,
    /// The path of the kernel image.
    pub kernel: String,
    /// The kernel parameters, in order.
    pub kernel_params: Vec<String>,
    /// The path of the init program.
    pub init: String,
    /// The path of the initrd, if there is one.
    pub initrd: Option<String>,
    /// The path of the program that appends secrets to the initrd, if there
    /// is one.
    pub initrd_secrets: Option<String>,
    /// The system that the configuration is for, such as `x86_64-linux`.
    pub system: String,
    /// The root of the configuration.
    pub toplevel: SystemConfigurationRoot,
}

impl View for BootSpecV1 {
    type V = BootSpecV1View;

    open spec fn view(&self) -> BootSpecV1View {
        BootSpecV1View {
            label: self.label@,
            kernel: self.kernel@,
            kernel_params: texts(self.kernel_params@),
            init: self.init@,
            initrd: optional_text(self.initrd),
            initrd_secrets: optional_text(self.initrd_secrets),
            system: self.system@,
            toplevel: self.toplevel@,
        }
    }
}

/// The text of the field `name`, where the field is there and is a string.
pub open spec fn text_at(fields: Map<Seq<char>, JsonValue>, name: Seq<char>) -> Option<Seq<char>> {
    if fields.contains_key(name) && fields[name] is Str {
        Some(fields[name]->Str_0)
    } else {
        None
    }
}

/// The text of the optional field `name`: none where the field is missing
/// or `null`. The outer `None` stands for a field that is neither missing,
/// nor `null`, nor a string.
pub open spec fn optional_text_at(fields: Map<Seq<char>, JsonValue>, name: Seq<char>) -> Option<
    Option<Seq<char>>,
> {
    if !fields.contains_key(name) || fields[name] is Null {
        Some(None)
    } else if fields[name] is Str {
        Some(Some(fields[name]->Str_0))
    } else {
        None
    }
}

/// Every item is a string.
pub open spec fn all_text(items: Seq<JsonValue>) -> bool {
    forall|i: int| 0 <= i < items.len() ==> (#[trigger] items[i]) is Str
}

/// The texts of a sequence of strings.
pub open spec fn item_texts(items: Seq<JsonValue>) -> Seq<Seq<char>> {
    Seq::new(items.len(), |i: int| items[i]->Str_0)
}

/// The texts of the field `name`, where the field is there and is an array
/// of strings.
pub open spec fn text_list_at(fields: Map<Seq<char>, JsonValue>, name: Seq<char>) -> Option<
    Seq<Seq<char>>,
> {
    if fields.contains_key(name) && fields[name] is Array && all_text(fields[name]->Array_0) {
        Some(item_texts(fields[name]->Array_0))
    } else {
        None
    }
}

/// What is wrong with the field `name`, where a string has to be there.
pub open spec fn text_fault(fields: Map<Seq<char>, JsonValue>, name: Seq<char>) -> Option<Expected> {
    if !fields.contains_key(name) {
        Some(Expected::Field)
    } else if !(fields[name] is Str) {
        Some(Expected::Text)
    } else {
        None
    }
}

/// What is wrong with the field `name`, where a string may be there.
pub open spec fn optional_text_fault(fields: Map<Seq<char>, JsonValue>, name: Seq<char>) -> Option<
    Expected,
> {
    if fields.contains_key(name) && !(fields[name] is Null) && !(fields[name] is Str) {
        Some(Expected::Text)
    } else {
        None
    }
}

/// What is wrong with the field `name`, where an array of strings has to be
/// there.
pub open spec fn text_list_fault(fields: Map<Seq<char>, JsonValue>, name: Seq<char>) -> Option<
    Expected,
> {
    if !fields.contains_key(name) {
        Some(Expected::Field)
    } else if !(fields[name] is Array && all_text(fields[name]->Array_0)) {
        Some(Expected::TextList)
    } else {
        None
    }
}

/// The mismatch at the place itself.
pub open spec fn here(expected: Expected) -> MismatchView {
    MismatchView { path: Seq::empty(), expected }
}

/// The mismatch `m`, seen from one key further up.
pub open spec fn under(key: Seq<char>, m: MismatchView) -> MismatchView {
    MismatchView { path: seq![key] + m.path, expected: m.expected }
}

/// The boot specification that a JSON value holds, if it holds one: an
/// object with the six required fields and, where they are there and not
/// `null`, the two optional ones, each of its type. Other fields of the
/// object are passed over.
pub open spec fn boot_spec_of(tree: JsonValue) -> Option<BootSpecV1View> {
    if tree is Object {
        let f = tree->Object_0;
        if text_at(f, LABEL@) is Some && text_at(f, KERNEL@) is Some && text_list_at(
            f,
            KERNEL_PARAMS@,
        ) is Some && text_at(f, INIT@) is Some && optional_text_at(f, INITRD@) is Some
            && optional_text_at(f, INITRD_SECRETS@) is Some && text_at(f, SYSTEM@) is Some
            && text_at(f, TOPLEVEL@) is Some {
            Some(
                BootSpecV1View {
                    label: text_at(f, LABEL@)->0,
                    kernel: text_at(f, KERNEL@)->0,
                    kernel_params: text_list_at(f, KERNEL_PARAMS@)->0,
                    init: text_at(f, INIT@)->0,
                    initrd: optional_text_at(f, INITRD@)->0,
                    initrd_secrets: optional_text_at(f, INITRD_SECRETS@)->0,
                    system: text_at(f, SYSTEM@)->0,
                    toplevel: text_at(f, TOPLEVEL@)->0,
                },
            )
        } else {
            None
        }
    } else {
        None
    }
}

/// Why a JSON value holds no boot specification, if it holds none: the
/// first thing that is wrong with it, the fields taken in the order `label`,
/// `kernel`, `kernelParams`, `init`, `initrd`, `initrdSecrets`, `system`,
/// `toplevel`.
pub open spec fn boot_spec_fault(tree: JsonValue) -> Option<MismatchView> {
    if tree is Object {
        let f = tree->Object_0;
        if text_fault(f, LABEL@) is Some {
            Some(under(LABEL@, here(text_fault(f, LABEL@)->0)))
        } else if text_fault(f, KERNEL@) is Some {
            Some(under(KERNEL@, here(text_fault(f, KERNEL@)->0)))
        } else if text_list_fault(f, KERNEL_PARAMS@) is Some {
            Some(under(KERNEL_PARAMS@, here(text_list_fault(f, KERNEL_PARAMS@)->0)))
        } else if text_fault(f, INIT@) is Some {
            Some(under(INIT@, here(text_fault(f, INIT@)->0)))
        } else if optional_text_fault(f, INITRD@) is Some {
            Some(under(INITRD@, here(optional_text_fault(f, INITRD@)->0)))
        } else if optional_text_fault(f, INITRD_SECRETS@) is Some {
            Some(under(INITRD_SECRETS@, here(optional_text_fault(f, INITRD_SECRETS@)->0)))
        } else if text_fault(f, SYSTEM@) is Some {
            Some(under(SYSTEM@, here(text_fault(f, SYSTEM@)->0)))
        } else if text_fault(f, TOPLEVEL@) is Some {
            Some(under(TOPLEVEL@, here(text_fault(f, TOPLEVEL@)->0)))
        } else {
            None
        }
    } else {
        Some(here(Expected::Object))
    }
}

/// A JSON value holds a boot specification if and only if nothing is wrong
/// with it.
pub proof fn lemma_boot_spec_fault(tree: JsonValue)
    ensures
        boot_spec_of(tree) is None <==> boot_spec_fault(tree) is Some,
{
}

/// What reading a boot specification from a JSON value comes to.
pub open spec fn boot_spec_result(tree: JsonValue) -> Result<BootSpecV1View, MismatchView> {
    match boot_spec_of(tree) {
        Some(b) => Ok(b),
        None => Err(boot_spec_fault(tree)->0),
    }
}

/// The JSON value of an optional text: a string, or `null`.
pub open spec fn optional_text_tree(o: Option<Seq<char>>) -> JsonValue {
    match o {
        Some(s) => JsonValue::Str(s),
        None => JsonValue::Null,
    }
}

/// The JSON values of a sequence of texts.
pub open spec fn text_trees(list: Seq<Seq<char>>) -> Seq<JsonValue> {
    Seq::new(list.len(), |i: int| JsonValue::Str(list[i]))
}

/// The fields of the JSON object that holds a boot specification.
pub open spec fn boot_spec_fields(b: BootSpecV1View) -> Map<Seq<char>, JsonValue> {
    Map::<Seq<char>, JsonValue>::empty().insert(LABEL@, JsonValue::Str(b.label)).insert(
        KERNEL@,
        JsonValue::Str(b.kernel),
    ).insert(KERNEL_PARAMS@, JsonValue::Array(text_trees(b.kernel_params))).insert(
        INIT@,
        JsonValue::Str(b.init),
    ).insert(INITRD@, optional_text_tree(b.initrd)).insert(
        INITRD_SECRETS@,
        optional_text_tree(b.initrd_secrets),
    ).insert(SYSTEM@, JsonValue::Str(b.system)).insert(TOPLEVEL@, JsonValue::Str(b.toplevel))
}

/// The JSON value that holds a boot specification: an object with all eight
/// fields, an optional field without a value being `null`.
pub open spec fn boot_spec_tree(b: BootSpecV1View) -> JsonValue {
    JsonValue::Object(boot_spec_fields(b))
}

/// A boot specification is read back from the JSON value that holds it.
pub proof fn lemma_boot_spec_round_trip(b: BootSpecV1View)
    ensures
        boot_spec_of(boot_spec_tree(b)) == Some(b),
{
    lemma_field_names();
    let f = boot_spec_fields(b);
    let params = JsonValue::Array(text_trees(b.kernel_params));
    assert(f[KERNEL_PARAMS@] == params);
    assert(all_text(text_trees(b.kernel_params)));
    assert(item_texts(text_trees(b.kernel_params)) =~= b.kernel_params);
    assert(text_list_at(f, KERNEL_PARAMS@) == Some(b.kernel_params));
    assert(optional_text_at(f, INITRD@) == Some(b.initrd));
    assert(optional_text_at(f, INITRD_SECRETS@) == Some(b.initrd_secrets));
}

/// Reads the field `name`, which has to be a string.
fn read_text(fields: &TextMap<String, Json>, name: &str) -> (r: Result<String, Expected>)
    ensures
        match r {
            Ok(s) => text_at(models(fields@), name@) == Some(s@) && text_fault(
                models(fields@),
                name@,
            ) is None,
            Err(e) => text_at(models(fields@), name@) is None && text_fault(models(fields@), name@)
                == Some(e),
        },
{
    match fields.get(name) {
        None => Err(Expected::Field),
        Some(Json::Str(s)) => Ok(s.clone()),
        Some(_) => Err(Expected::Text),
    }
}

/// Reads the field `name`, which may be a string.
fn read_optional_text(fields: &TextMap<String, Json>, name: &str) -> (r: Result<
    Option<String>,
    Expected,
>)
    ensures
        match r {
            Ok(o) => optional_text_at(models(fields@), name@) == Some(optional_text(o))
                && optional_text_fault(models(fields@), name@) is None,
            Err(e) => optional_text_at(models(fields@), name@) is None && optional_text_fault(
                models(fields@),
                name@,
            ) == Some(e),
        },
{
    match fields.get(name) {
        None => Ok(None),
        Some(Json::Null) => Ok(None),
        Some(Json::Str(s)) => Ok(Some(s.clone())),
        Some(_) => Err(Expected::Text),
    }
}

/// Reads the field `name`, which has to be an array of strings.
fn read_text_list(fields: &TextMap<String, Json>, name: &str) -> (r: Result<Vec<String>, Expected>)
    ensures
        match r {
            Ok(list) => text_list_at(models(fields@), name@) == Some(texts(list@))
                && text_list_fault(models(fields@), name@) is None,
            Err(e) => text_list_at(models(fields@), name@) is None && text_list_fault(
                models(fields@),
                name@,
            ) == Some(e),
        },
{
    match fields.get(name) {
        None => Err(Expected::Field),
        Some(Json::Array(items)) => {
            proof {
                Json::lemma_array_view(*items);
            }
            let mut list: Vec<String> = Vec::new();
            let mut i: usize = 0;
            while i < items.len()
                invariant
                    i <= items@.len(),
                    list@.len() == i,
                    fields@.contains_key(name@),
                    fields@[name@] == Json::Array(*items),
                    Json::Array(*items)@ == JsonValue::Array(item_models(items@)),
                    forall|j: int| 0 <= j < i ==> (#[trigger] items@[j])@ == JsonValue::Str(list@[j]@),
                decreases items@.len() - i,
            {
                match &items[i] {
                    Json::Str(s) => {
                        list.push(s.clone());
                    },
                    _ => {
                        proof {
                            assert(!(item_models(items@)[i as int] is Str));
                            assert(!all_text(item_models(items@)));
                        }
                        return Err(Expected::TextList);
                    },
                }
                i += 1;
            }
            proof {
                let trees = item_models(items@);
                assert forall|j: int| 0 <= j < trees.len() implies (#[trigger] trees[j]) is Str by {
                    assert(items@[j]@ == JsonValue::Str(list@[j]@));
                }
                assert(item_texts(trees) =~= texts(list@)) by {
                    assert forall|j: int| 0 <= j < trees.len() implies item_texts(trees)[j] == texts(
                        list@,
                    )[j] by {
                        assert(items@[j]@ == JsonValue::Str(list@[j]@));
                    }
                }
            }
            Ok(list)
        },
        Some(_) => Err(Expected::TextList),
    }
}

/// The path that leads to one field.
fn path_to(name: &str) -> (path: Vec<String>)
    ensures
        texts(path@) == seq![name@],
{
    let mut path: Vec<String> = Vec::new();
    path.push(String::from_str(name));
    assert(texts(path@) =~= seq![name@]);
    path
}

impl BootSpecV1 {
    /// Reads a boot specification from the JSON value that holds it.
    pub fn from_json(j: &Json) -> (r: Result<BootSpecV1, Mismatch>)
        ensures
            comes_to(r, boot_spec_result(j@)),
    {
        let fields = match j {
            Json::Object(fields) => fields,
            _ => {
                let path: Vec<String> = Vec::new();
                assert(texts(path@) =~= Seq::<Seq<char>>::empty());
                return Err(Mismatch { path, expected: Expected::Object });
            },
        };
        proof {
            Json::lemma_object_view(*fields);
        }
        let label = match read_text(fields, LABEL) {
            Ok(s) => s,
            Err(expected) => {
                return Err(Mismatch { path: path_to(LABEL), expected });
            },
        };
        let kernel = match read_text(fields, KERNEL) {
            Ok(s) => s,
            Err(expected) => {
                return Err(Mismatch { path: path_to(KERNEL), expected });
            },
        };
        let kernel_params = match read_text_list(fields, KERNEL_PARAMS) {
            Ok(s) => s,
            Err(expected) => {
                return Err(Mismatch { path: path_to(KERNEL_PARAMS), expected });
            },
        };
        let init = match read_text(fields, INIT) {
            Ok(s) => s,
            Err(expected) => {
                return Err(Mismatch { path: path_to(INIT), expected });
            },
        };
        let initrd = match read_optional_text(fields, INITRD) {
            Ok(s) => s,
            Err(expected) => {
                return Err(Mismatch { path: path_to(INITRD), expected });
            },
        };
        let initrd_secrets = match read_optional_text(fields, INITRD_SECRETS) {
            Ok(s) => s,
            Err(expected) => {
                return Err(Mismatch { path: path_to(INITRD_SECRETS), expected });
            },
        };
        let system = match read_text(fields, SYSTEM) {
            Ok(s) => s,
            Err(expected) => {
                return Err(Mismatch { path: path_to(SYSTEM), expected });
            },
        };
        let toplevel = match read_text(fields, TOPLEVEL) {
            Ok(s) => s,
            Err(expected) => {
                return Err(Mismatch { path: path_to(TOPLEVEL), expected });
            },
        };
        Ok(
            BootSpecV1 {
                label,
                kernel,
                kernel_params,
                init,
                initrd,
                initrd_secrets,
                system,
                toplevel: SystemConfigurationRoot(toplevel),
            },
        )
    }

    /// The JSON value that holds this boot specification.
    pub fn to_json(&self) -> (j: Json)
        ensures
            j@ == boot_spec_tree(self@),
    {
        let mut fields: TextMap<String, Json> = TextMap::new();
        fields.insert(String::from_str(LABEL), Json::Str(self.label.clone()));
        fields.insert(String::from_str(KERNEL), Json::Str(self.kernel.clone()));
        let mut params: Vec<Json> = Vec::new();
        let mut i: usize = 0;
        while i < self.kernel_params.len()
            invariant
                i <= self.kernel_params@.len(),
                params@.len() == i,
                forall|j: int|
                    0 <= j < i ==> (#[trigger] params@[j])@ == JsonValue::Str(self.kernel_params@[j]@),
            decreases self.kernel_params@.len() - i,
        {
            params.push(Json::Str(self.kernel_params[i].clone()));
            i += 1;
        }
        proof {
            Json::lemma_array_view(params);
            assert(item_models(params@) =~= text_trees(texts(self.kernel_params@)));
        }
        fields.insert(String::from_str(KERNEL_PARAMS), Json::Array(params));
        fields.insert(String::from_str(INIT), Json::Str(self.init.clone()));
        let initrd = match &self.initrd {
            Some(s) => Json::Str(s.clone()),
            None => Json::Null,
        };
        fields.insert(String::from_str(INITRD), initrd);
        let initrd_secrets = match &self.initrd_secrets {
            Some(s) => Json::Str(s.clone()),
            None => Json::Null,
        };
        fields.insert(String::from_str(INITRD_SECRETS), initrd_secrets);
        fields.insert(String::from_str(SYSTEM), Json::Str(self.system.clone()));
        fields.insert(String::from_str(TOPLEVEL), Json::Str(self.toplevel.0.clone()));
        proof {
            Json::lemma_object_view(fields);
            assert(models(fields@) =~= boot_spec_fields(self@));
        }
        Json::Object(fields)
    }
}

/// The model of a generation.
pub struct GenerationV1View {
    pub bootspec: BootSpecV1View,
    pub specialisations: Map<Seq<char>, GenerationV1View>,
}

/// The specialisations of a generation, by name: a map that holds each name
/// once, its entries sorted by name.
#[derive(Debug, PartialEq, Eq)]
pub struct SpecialisationsV1 {
    entries: Vec<(SpecialisationName, GenerationV1)>,
}

impl SpecialisationsV1 {
    #[verifier::type_invariant]
    closed spec fn inv(&self) -> bool {
        sorted_keys(self.entries@)
    }

    /// The generations, by the text of their names.
    pub closed spec fn view(&self) -> Map<Seq<char>, GenerationV1> {
        pairs_map(self.entries@)
    }

    /// The stored entries, in the order in which
    /// [`SpecialisationsV1::entries`] hands them out.
    pub closed spec fn spec_entries(&self) -> Seq<(SpecialisationName, GenerationV1)> {
        self.entries@
    }

    /// Every generation of the map is structurally smaller than the map.
    pub proof fn lemma_value_decreases(self, name: Seq<char>)
        requires
            self@.contains_key(name),
        ensures
            decreases_to!(self => self@[name]),
    {
        lemma_pairs_decrease(self.entries@, name);
        assert(decreases_to!(self => self.entries));
        assert(decreases_to!(self.entries => self.entries@));
    }

    /// Every stored generation is structurally smaller than the map.
    pub proof fn lemma_entry_decreases(self, i: int)
        requires
            0 <= i < self.spec_entries().len(),
        ensures
            decreases_to!(self => self.spec_entries()[i].1),
    {
        assert(decreases_to!(self => self.entries));
        lemma_entry_smaller(self.entries, i);
    }

    /// No specialisation.
    pub fn new() -> (m: Self)
        ensures
            m@ == Map::<Seq<char>, GenerationV1>::empty(),
    {
        SpecialisationsV1 { entries: Vec::new() }
    }

    /// The number of specialisations.
    pub fn len(&self) -> (n: usize)
        ensures
            self@.dom().finite(),
            n == self@.len(),
    {
        proof {
            use_type_invariant(self);
            lemma_sorted_distinct(self.entries@);
            lemma_pairs_len(self.entries@);
        }
        self.entries.len()
    }

    /// Whether there is no specialisation.
    pub fn is_empty(&self) -> (b: bool)
        ensures
            b == (self@ == Map::<Seq<char>, GenerationV1>::empty()),
    {
        proof {
            use_type_invariant(self);
            lemma_sorted_distinct(self.entries@);
            if self.entries@.len() > 0 {
                lemma_pairs_index(self.entries@, 0);
            }
        }
        self.entries.len() == 0
    }

    /// Whether there is a specialisation of this name.
    pub fn contains_key(&self, name: &SpecialisationName) -> (b: bool)
        ensures
            b == self@.contains_key(name@),
    {
        proof {
            use_type_invariant(self);
        }
        let (p, found) = sorted_slot(&self.entries, name.as_text());
        found
    }

    /// The generation of the specialisation of this name, if there is one.
    pub fn get(&self, name: &SpecialisationName) -> (r: Option<&GenerationV1>)
        ensures
            match r {
                Some(g) => self@.contains_key(name@) && *g == self@[name@],
                None => !self@.contains_key(name@),
            },
    {
        proof {
            use_type_invariant(self);
        }
        let (p, found) = sorted_slot(&self.entries, name.as_text());
        if found {
            Some(&self.entries[p].1)
        } else {
            None
        }
    }

    /// Binds `name` to `generation`, replacing what `name` was bound to
    /// before.
    pub fn insert(&mut self, name: SpecialisationName, generation: GenerationV1)
        ensures
            final(self)@ == old(self)@.insert(name@, generation),
    {
        proof {
            use_type_invariant(&*self);
        }
        let mut taken = SpecialisationsV1 { entries: Vec::new() };
        core::mem::swap(self, &mut taken);
        let mut entries = taken.entries;
        sorted_insert(&mut entries, name, generation);
        *self = SpecialisationsV1 { entries };
    }

    /// The specialisations, each name once, in ascending order of the names.
    pub fn entries(&self) -> (r: &Vec<(SpecialisationName, GenerationV1)>)
        ensures
            r@ == self.spec_entries(),
            pairs_map(r@) == self@,
            enumerates(r@, self@),
            sorted_keys(r@),
    {
        proof {
            use_type_invariant(self);
            lemma_sorted_distinct(self.entries@);
            lemma_pairs_enumerate(self.entries@);
        }
        &self.entries
    }

    /// The names of the specialisations, in ascending order.
    pub fn keys(&self) -> (names: Vec<SpecialisationName>)
        ensures
            names@.len() == self@.len(),
            forall|i: int| 0 <= i < names@.len() ==> self@.contains_key((#[trigger] names@[i])@),
            forall|name: Seq<char>| #[trigger]
                self@.contains_key(name) ==> exists|i: int|
                    0 <= i < names@.len() && (#[trigger] names@[i])@ == name,
    {
        let entries = self.entries();
        let mut names: Vec<SpecialisationName> = Vec::new();
        let mut i: usize = 0;
        while i < entries.len()
            invariant
                i <= entries@.len(),
                names@.len() == i,
                forall|j: int| 0 <= j < i ==> (#[trigger] names@[j])@ == entries@[j].0@,
            decreases entries@.len() - i,
        {
            names.push(entries[i].0.same_key());
            i += 1;
        }
        proof {
            assert forall|j: int| 0 <= j < names@.len() implies self@.contains_key(
                (#[trigger] names@[j])@,
            ) by {
                assert(self@.contains_key(entries@[j].0.text()));
            }
            assert forall|name: Seq<char>| #[trigger] self@.contains_key(name) implies exists|
                i: int,
            |
                0 <= i < names@.len() && (#[trigger] names@[i])@ == name by {
                let j = choose|j: int|
                    0 <= j < entries@.len() && (#[trigger] entries@[j]).0.text() == name;
                assert(names@[j]@ == name);
            }
        }
        names
    }
}

/// A generation: the boot specification of a configuration and, by name,
/// the generations of its specialisations.
#[derive(Debug, PartialEq, Eq)]
pub struct GenerationV1 {
    pub bootspec: BootSpecV1,
    pub specialisations: SpecialisationsV1,
}

/// The models of the generations of a map.
pub open spec fn generation_models(m: Map<Seq<char>, GenerationV1>) -> Map<
    Seq<char>,
    GenerationV1View,
> {
    Map::new(|name: Seq<char>| m.contains_key(name), |name: Seq<char>| m[name]@)
}

/// The model of a generation: the model of its boot specification and the
/// models of its specialisations.
pub open spec fn generation_view(g: GenerationV1) -> GenerationV1View
    decreases g,
{
    GenerationV1View {
        bootspec: g.bootspec@,
        specialisations: Map::new(
            |name: Seq<char>| g.specialisations@.contains_key(name),
            |name: Seq<char>|
                if g.specialisations@.contains_key(name) {
                    proof {
                        g.specialisations.lemma_value_decreases(name);
                    }
                    generation_view(g.specialisations@[name])
                } else {
                    arbitrary()
                },
        ),
    }
}

impl View for GenerationV1 {
    type V = GenerationV1View;

    open spec fn view(&self) -> GenerationV1View {
        generation_view(*self)
    }
}

/// Every value of the object holds a generation.
pub open spec fn all_generations(s: Map<Seq<char>, JsonValue>) -> bool {
    forall|name: Seq<char>| #[trigger] s.contains_key(name) ==> generation_of(s[name]) is Some
}

/// The generations that the values of the object hold.
pub open spec fn generations_of(s: Map<Seq<char>, JsonValue>) -> Map<Seq<char>, GenerationV1View> {
    Map::new(|name: Seq<char>| s.contains_key(name), |name: Seq<char>| generation_of(s[name])->0)
}

/// The generation that a JSON value holds, if it holds one: an object with
/// a boot specification under [`BOOTSPEC_KEY`] and, where the key is there,
/// an object under [`SPECIALISATION_KEY`] of which each value holds a
/// generation. Without the second key the generation has no specialisation.
/// Other fields of the object are passed over.
pub open spec fn generation_of(tree: JsonValue) -> Option<GenerationV1View>
    decreases tree,
{
    if tree is Object {
        let f = tree->Object_0;
        if f.contains_key(BOOTSPEC_KEY@) && boot_spec_of(f[BOOTSPEC_KEY@]) is Some {
            let bootspec = boot_spec_of(f[BOOTSPEC_KEY@])->0;
            if !f.contains_key(SPECIALISATION_KEY@) {
                Some(GenerationV1View { bootspec, specialisations: Map::empty() })
            } else if f[SPECIALISATION_KEY@] is Object {
                let s = f[SPECIALISATION_KEY@]->Object_0;
                if forall|name: Seq<char>| #[trigger]
                    s.contains_key(name) ==> generation_of(s[name]) is Some {
                    Some(
                        GenerationV1View {
                            bootspec,
                            specialisations: Map::new(
                                |name: Seq<char>| s.contains_key(name),
                                |name: Seq<char>|
                                    if s.contains_key(name) {
                                        generation_of(s[name])->0
                                    } else {
                                        arbitrary()
                                    },
                            ),
                        },
                    )
                } else {
                    None
                }
            } else {
                None
            }
        } else {
            None
        }
    } else {
        None
    }
}

/// Among the values of the object that hold no generation, that of `name`
/// is the first in the order of the names.
pub open spec fn least_failing(s: Map<Seq<char>, JsonValue>, name: Seq<char>) -> bool {
    &&& s.contains_key(name)
    &&& generation_of(s[name]) is None
    &&& forall|other: Seq<char>| #[trigger]
        s.contains_key(other) && generation_of(s[other]) is None ==> other == name || text_before(
            name,
            other,
        )
}

/// Why a JSON value holds no generation, if it holds none: the first thing
/// that is wrong with it. The boot specification comes before the
/// specialisations, and the specialisations come in the order of their
/// names. (An object with infinitely many fields, which no JSON text gives,
/// may have specialisations that hold no generation and no first of them;
/// of such an object only the key of the specialisations is named.)
pub open spec fn generation_fault(tree: JsonValue) -> Option<MismatchView>
    decreases tree,
{
    if tree is Object {
        let f = tree->Object_0;
        if !f.contains_key(BOOTSPEC_KEY@) {
            Some(under(BOOTSPEC_KEY@, here(Expected::Field)))
        } else if boot_spec_fault(f[BOOTSPEC_KEY@]) is Some {
            Some(under(BOOTSPEC_KEY@, boot_spec_fault(f[BOOTSPEC_KEY@])->0))
        } else if !f.contains_key(SPECIALISATION_KEY@) {
            None
        } else if !(f[SPECIALISATION_KEY@] is Object) {
            Some(under(SPECIALISATION_KEY@, here(Expected::Object)))
        } else {
            let s = f[SPECIALISATION_KEY@]->Object_0;
            if all_generations(s) {
                None
            } else {
                let name = choose|name: Seq<char>| least_failing(s, name);
                if s.contains_key(name) && generation_fault(s[name]) is Some {
                    Some(under(SPECIALISATION_KEY@, under(name, generation_fault(s[name])->0)))
                } else {
                    Some(under(SPECIALISATION_KEY@, here(Expected::Object)))
                }
            }
        }
    } else {
        Some(here(Expected::Object))
    }
}

/// A JSON value holds a generation if and only if nothing is wrong with it.
pub proof fn lemma_generation_fault(tree: JsonValue)
    ensures
        generation_of(tree) is None <==> generation_fault(tree) is Some,
{
    if tree is Object {
        let f = tree->Object_0;
        if f.contains_key(BOOTSPEC_KEY@) {
            lemma_boot_spec_fault(f[BOOTSPEC_KEY@]);
        }
    }
}

/// No two names are the first of those whose values hold no generation.
pub proof fn lemma_least_failing_unique(s: Map<Seq<char>, JsonValue>, a: Seq<char>, b: Seq<char>)
    requires
        least_failing(s, a),
        least_failing(s, b),
    ensures
        a == b,
{
    if a != b {
        assert(s.contains_key(b) && generation_of(s[b]) is None);
        assert(s.contains_key(a) && generation_of(s[a]) is None);
        assert(text_before(a, b));
        assert(text_before(b, a));
        lemma_text_before_transitive(a, b, a);
        lemma_text_before_irreflexive(a);
    }
}

/// What reading a generation from a JSON value comes to.
pub open spec fn generation_result(tree: JsonValue) -> Result<GenerationV1View, MismatchView> {
    match generation_of(tree) {
        Some(g) => Ok(g),
        None => Err(generation_fault(tree)->0),
    }
}

/// The fields of the JSON object that holds a generation: the boot
/// specification under [`BOOTSPEC_KEY`] and, under [`SPECIALISATION_KEY`],
/// an object that holds each specialisation under its name.
pub open spec fn generation_fields(g: GenerationV1View) -> Map<Seq<char>, JsonValue>
    decreases g,
{
    Map::<Seq<char>, JsonValue>::empty().insert(BOOTSPEC_KEY@, boot_spec_tree(g.bootspec)).insert(
        SPECIALISATION_KEY@,
        JsonValue::Object(
            Map::new(
                |name: Seq<char>| g.specialisations.contains_key(name),
                |name: Seq<char>|
                    if g.specialisations.contains_key(name) {
                        JsonValue::Object(generation_fields(g.specialisations[name]))
                    } else {
                        JsonValue::Null
                    },
            ),
        ),
    )
}

/// The JSON objects that hold the generations of a map.
pub open spec fn generation_trees(m: Map<Seq<char>, GenerationV1View>) -> Map<Seq<char>, JsonValue> {
    Map::new(
        |name: Seq<char>| m.contains_key(name),
        |name: Seq<char>| JsonValue::Object(generation_fields(m[name])),
    )
}

/// The object under [`SPECIALISATION_KEY`] holds the generations of the
/// specialisations.
pub proof fn lemma_generation_fields(g: GenerationV1View)
    ensures
        generation_fields(g) == Map::<Seq<char>, JsonValue>::empty().insert(
            BOOTSPEC_KEY@,
            boot_spec_tree(g.bootspec),
        ).insert(SPECIALISATION_KEY@, JsonValue::Object(generation_trees(g.specialisations))),
{
    assert(generation_fields(g)[SPECIALISATION_KEY@]->Object_0 =~= generation_trees(
        g.specialisations,
    ));
}

/// The JSON value that holds a generation.
pub open spec fn generation_tree(g: GenerationV1View) -> JsonValue {
    JsonValue::Object(generation_fields(g))
}

/// The two keys of a generation are different texts.
pub proof fn lemma_generation_keys()
    ensures
        BOOTSPEC_KEY@ != SPECIALISATION_KEY@,
{
    reveal_strlit("org.nixos.bootspec.v1");
    reveal_strlit("org.nixos.specialisation.v1");
    assert(BOOTSPEC_KEY@.len() == 21);
    assert(SPECIALISATION_KEY@.len() == 27);
}

/// What generation an object holds depends on its two schema-owned fields
/// alone.
pub proof fn lemma_generation_reads_own_fields(
    f: Map<Seq<char>, JsonValue>,
    g: Map<Seq<char>, JsonValue>,
)
    requires
        f.contains_key(BOOTSPEC_KEY@) == g.contains_key(BOOTSPEC_KEY@),
        f.contains_key(BOOTSPEC_KEY@) ==> f[BOOTSPEC_KEY@] == g[BOOTSPEC_KEY@],
        f.contains_key(SPECIALISATION_KEY@) == g.contains_key(SPECIALISATION_KEY@),
        f.contains_key(SPECIALISATION_KEY@) ==> f[SPECIALISATION_KEY@] == g[SPECIALISATION_KEY@],
    ensures
        generation_of(JsonValue::Object(f)) == generation_of(JsonValue::Object(g)),
{
}

/// A generation is read back from the JSON value that holds it.
pub proof fn lemma_generation_round_trip(g: GenerationV1View)
    ensures
        generation_of(generation_tree(g)) == Some(g),
    decreases g,
{
    lemma_generation_keys();
    lemma_boot_spec_round_trip(g.bootspec);
    lemma_generation_fields(g);
    let f = generation_fields(g);
    let s = generation_trees(g.specialisations);
    assert(f[SPECIALISATION_KEY@] == JsonValue::Object(s));
    assert(f[BOOTSPEC_KEY@] == boot_spec_tree(g.bootspec));
    assert forall|name: Seq<char>| #[trigger] s.contains_key(name) implies generation_of(s[name])
        == Some(g.specialisations[name]) by {
        lemma_generation_round_trip(g.specialisations[name]);
    }
    let read = generation_of(generation_tree(g));
    assert(read is Some);
    assert(read->0.specialisations =~= g.specialisations);
}

/// The path that begins with `head` and goes on as `tail`.
fn path_under(head: &str, tail: Vec<String>) -> (path: Vec<String>)
    ensures
        texts(path@) == seq![head@] + texts(tail@),
{
    let mut path: Vec<String> = Vec::new();
    path.push(String::from_str(head));
    let mut tail = tail;
    let ghost first = path@;
    let ghost rest = tail@;
    path.append(&mut tail);
    assert(path@ == first + rest);
    assert(texts(path@) =~= seq![head@] + texts(rest));
    path
}

impl GenerationV1 {
    /// The model of a generation is made of the models of its parts.
    pub proof fn lemma_view(self)
        ensures
            self@ == (GenerationV1View {
                bootspec: self.bootspec@,
                specialisations: generation_models(self.specialisations@),
            }),
    {
        let v = self@;
        let m = generation_models(self.specialisations@);
        assert(v.specialisations =~= m);
    }

    /// Reads a generation from the JSON value that holds it.
    pub fn from_json(j: &Json) -> (r: Result<GenerationV1, Mismatch>)
        ensures
            comes_to(r, generation_result(j@)),
        decreases j,
    {
        let fields = match j {
            Json::Object(fields) => fields,
            _ => {
                let path: Vec<String> = Vec::new();
                assert(texts(path@) =~= Seq::<Seq<char>>::empty());
                return Err(Mismatch { path, expected: Expected::Object });
            },
        };
        proof {
            Json::lemma_object_view(*fields);
            lemma_generation_keys();
            lemma_generation_fault(j@);
        }
        let bootspec = match fields.get(BOOTSPEC_KEY) {
            None => {
                let path = path_to(BOOTSPEC_KEY);
                return Err(Mismatch { path, expected: Expected::Field });
            },
            Some(value) => {
                proof {
                    lemma_boot_spec_fault(value@);
                }
                match BootSpecV1::from_json(value) {
                    Ok(b) => b,
                    Err(m) => {
                        let path = path_under(BOOTSPEC_KEY, m.path);
                        return Err(Mismatch { path, expected: m.expected });
                    },
                }
            },
        };
        let mut specialisations: SpecialisationsV1 = SpecialisationsV1::new();
        match fields.get(SPECIALISATION_KEY) {
            None => {
                proof {
                    assert(generation_models(specialisations@) =~= Map::<
                        Seq<char>,
                        GenerationV1View,
                    >::empty());
                }
            },
            Some(Json::Object(specs)) => {
                proof {
                    Json::lemma_object_view(*specs);
                    fields.lemma_value_decreases(SPECIALISATION_KEY@);
                    assert(decreases_to!(*j => *fields));
                    assert(decreases_to!(fields@[SPECIALISATION_KEY@] => *specs));
                }
                let entries = specs.entries();
                let mut i: usize = 0;
                proof {
                    lemma_pairs_ends(entries@);
                    assert(generation_models(specialisations@) =~= generations_of(
                        models(pairs_map(entries@.take(0))),
                    ));
                }
                while i < entries.len()
                    invariant
                        i <= entries@.len(),
                        entries@ == specs.spec_entries(),
                        enumerates(entries@, specs@),
                        sorted_keys(entries@),
                        forall|a: int|
                            0 <= a < i ==> generation_of((#[trigger] entries@[a]).1@) is Some,
                        decreases_to!(*j => *specs),
                        j@ == JsonValue::Object(models(fields@)),
                        models(fields@).contains_key(SPECIALISATION_KEY@),
                        models(fields@)[SPECIALISATION_KEY@] == JsonValue::Object(models(specs@)),
                        models(fields@).contains_key(BOOTSPEC_KEY@),
                        boot_spec_of(models(fields@)[BOOTSPEC_KEY@]) is Some,
                        BOOTSPEC_KEY@ != SPECIALISATION_KEY@,
                        all_generations(models(pairs_map(entries@.take(i as int)))),
                        generation_models(specialisations@) == generations_of(
                            models(pairs_map(entries@.take(i as int))),
                        ),
                    decreases entries@.len() - i,
                {
                    proof {
                        specs.lemma_entry_decreases(i as int);
                        lemma_pairs_step(entries@, i as int);
                    }
                    let ghost prev = pairs_map(entries@.take(i as int));
                    let ghost e = entries@[i as int];
                    match GenerationV1::from_json(&entries[i].1) {
                        Ok(g) => {
                            proof {
                                lemma_generation_fault(e.1@);
                            }
                            let ghost before = specialisations@;
                            let name = SpecialisationName(entries[i].0.clone());
                            specialisations.insert(name, g);
                            proof {
                                let next = prev.insert(e.0@, e.1);
                                assert(models(next) =~= models(prev).insert(e.0@, e.1@));
                                assert(generation_models(before.insert(e.0@, g))
                                    =~= generation_models(before).insert(e.0@, g@));
                                assert(generations_of(models(next)) =~= generations_of(
                                    models(prev),
                                ).insert(e.0@, g@));
                                assert(all_generations(models(next)));
                            }
                        },
                        Err(m) => {
                            let ghost inner_fault = m@;
                            let inner = path_under(entries[i].0.as_str(), m.path);
                            let path = path_under(SPECIALISATION_KEY, inner);
                            proof {
                                let s = models(specs@);
                                assert(specs@.contains_key(e.0.text()) && specs@[e.0.text()] == e.1);
                                assert(s.contains_key(e.0@));
                                assert(s[e.0@] == e.1@);
                                lemma_generation_fault(e.1@);
                                assert(generation_of(s[e.0@]) is None);
                                assert(generation_of(j@) is None);
                                assert forall|other: Seq<char>| #[trigger]
                                    s.contains_key(other) && generation_of(s[other])
                                        is None implies other == e.0@ || text_before(e.0@, other) by {
                                    let a = choose|a: int|
                                        0 <= a < entries@.len() && (#[trigger] entries@[a]).0.text()
                                            == other;
                                    assert(specs@[entries@[a].0.text()] == entries@[a].1);
                                    if a < i {
                                        assert(generation_of(entries@[a].1@) is Some);
                                    } else if a > i {
                                        assert(text_before(entries@[i as int].0.text(), entries@[a].0.text()));
                                    }
                                }
                                assert(least_failing(s, e.0@));
                                let chosen = choose|name: Seq<char>| least_failing(s, name);
                                lemma_least_failing_unique(s, chosen, e.0@);
                                assert(generation_fault(s[e.0@]) == Some(inner_fault));
                                assert(texts(path@) =~= seq![SPECIALISATION_KEY@] + (seq![e.0@]
                                    + inner_fault.path));
                            }
                            return Err(Mismatch { path, expected: m.expected });
                        },
                    }
                    i += 1;
                }
                proof {
                    lemma_pairs_ends(entries@);
                    let s = models(specs@);
                    assert(generation_of(j@) is Some);
                    assert(generation_of(j@)->0.specialisations =~= generations_of(s));
                }
            },
            Some(_) => {
                let path = path_to(SPECIALISATION_KEY);
                return Err(Mismatch { path, expected: Expected::Object });
            },
        }
        let g = GenerationV1 { bootspec, specialisations };
        proof {
            g.lemma_view();
        }
        Ok(g)
    }

    /// The fields of the JSON object that holds this generation.
    pub fn fields_json(&self) -> (fields: TextMap<String, Json>)
        ensures
            models(fields@) == generation_fields(self@),
        decreases self,
    {
        let entries = self.specialisations.entries();
        let mut specs: TextMap<String, Json> = TextMap::new();
        let mut i: usize = 0;
        proof {
            lemma_pairs_ends(entries@);
            assert(models(specs@) =~= generation_trees(
                generation_models(pairs_map(entries@.take(0))),
            ));
        }
        while i < entries.len()
            invariant
                i <= entries@.len(),
                entries@ == self.specialisations.spec_entries(),
                decreases_to!(*self => self.specialisations),
                models(specs@) == generation_trees(
                    generation_models(pairs_map(entries@.take(i as int))),
                ),
            decreases entries@.len() - i,
        {
            proof {
                self.specialisations.lemma_entry_decreases(i as int);
                lemma_pairs_step(entries@, i as int);
            }
            let ghost prev = pairs_map(entries@.take(i as int));
            let ghost e = entries@[i as int];
            let inner = entries[i].1.fields_json();
            let ghost before = specs@;
            let value = Json::Object(inner);
            proof {
                Json::lemma_object_view(inner);
            }
            specs.insert(entries[i].0.0.clone(), value);
            proof {
                let next = prev.insert(e.0@, e.1);
                assert(models(before.insert(e.0@, value)) =~= models(before).insert(e.0@, value@));
                assert(generation_models(next) =~= generation_models(prev).insert(e.0@, e.1@));
                assert(generation_trees(generation_models(prev).insert(e.0@, e.1@))
                    =~= generation_trees(generation_models(prev)).insert(
                    e.0@,
                    JsonValue::Object(generation_fields(e.1@)),
                ));
            }
            i += 1;
        }
        proof {
            lemma_pairs_ends(entries@);
            self.lemma_view();
            Json::lemma_object_view(specs);
            lemma_generation_fields(self@);
        }
        let mut fields: TextMap<String, Json> = TextMap::new();
        let bootspec = self.bootspec.to_json();
        let specs_json = Json::Object(specs);
        fields.insert(String::from_str(BOOTSPEC_KEY), bootspec);
        fields.insert(String::from_str(SPECIALISATION_KEY), specs_json);
        proof {
            assert(models(fields@) =~= generation_fields(self@));
        }
        fields
    }

    /// The JSON value that holds this generation.
    pub fn to_json(&self) -> (j: Json)
        ensures
            j@ == generation_tree(self@),
    {
        let fields = self.fields_json();
        proof {
            Json::lemma_object_view(fields);
        }
        Json::Object(fields)
    }
}

/// A copy of a boot specification.
fn copy_boot_spec(b: &BootSpecV1) -> (r: BootSpecV1)
    ensures
        r@ == b@,
{
    let mut kernel_params: Vec<String> = Vec::new();
    let mut i: usize = 0;
    while i < b.kernel_params.len()
        invariant
            i <= b.kernel_params@.len(),
            kernel_params@.len() == i,
            forall|j: int| 0 <= j < i ==> (#[trigger] kernel_params@[j])@ == b.kernel_params@[j]@,
        decreases b.kernel_params@.len() - i,
    {
        kernel_params.push(b.kernel_params[i].clone());
        i += 1;
    }
    assert(texts(kernel_params@) =~= texts(b.kernel_params@));
    let initrd = match &b.initrd {
        Some(s) => Some(s.clone()),
        None => None,
    };
    let initrd_secrets = match &b.initrd_secrets {
        Some(s) => Some(s.clone()),
        None => None,
    };
    BootSpecV1 {
        label: b.label.clone(),
        kernel: b.kernel.clone(),
        kernel_params,
        init: b.init.clone(),
        initrd,
        initrd_secrets,
        system: b.system.clone(),
        toplevel: SystemConfigurationRoot(b.toplevel.0.clone()),
    }
}

/// Copies of the stored specialisations, in the same order.
fn copy_entries(m: &SpecialisationsV1) -> (out: Vec<(SpecialisationName, GenerationV1)>)
    ensures
        out@.len() == m.spec_entries().len(),
        forall|j: int|
            0 <= j < out@.len() ==> (#[trigger] out@[j]).0@ == m.spec_entries()[j].0@ && out@[j].1@
                == m.spec_entries()[j].1@,
        sorted_keys(out@),
        generation_models(pairs_map(out@)) == generation_models(m@),
    decreases m,
{
    let entries = m.entries();
    let mut out: Vec<(SpecialisationName, GenerationV1)> = Vec::new();
    let mut i: usize = 0;
    proof {
        lemma_pairs_ends(entries@);
        assert(out@ =~= out@.take(0));
        assert(generation_models(pairs_map(out@)) =~= generation_models(
            pairs_map(entries@.take(0)),
        ));
    }
    while i < entries.len()
        invariant
            i <= entries@.len(),
            out@.len() == i,
            entries@ == m.spec_entries(),
            sorted_keys(entries@),
            forall|j: int|
                0 <= j < i ==> (#[trigger] out@[j]).0@ == entries@[j].0@ && out@[j].1@
                    == entries@[j].1@,
            generation_models(pairs_map(out@)) == generation_models(
                pairs_map(entries@.take(i as int)),
            ),
        decreases entries@.len() - i,
    {
        proof {
            m.lemma_entry_decreases(i as int);
            lemma_pairs_step(entries@, i as int);
        }
        let name = entries[i].0.same_key();
        let copy = copy_generation(&entries[i].1);
        let ghost before = out@;
        out.push((name, copy));
        proof {
            assert(out@.drop_last() =~= before);
            let prev = pairs_map(entries@.take(i as int));
            let e = entries@[i as int];
            assert(generation_models(pairs_map(before).insert(name@, copy))
                =~= generation_models(pairs_map(before)).insert(name@, copy@));
            assert(generation_models(prev.insert(e.0@, e.1)) =~= generation_models(prev).insert(
                e.0@,
                e.1@,
            ));
        }
        i += 1;
    }
    proof {
        lemma_pairs_ends(entries@);
        assert forall|a: int, b: int| 0 <= a < b < out@.len() implies crate::text::text_before(
            (#[trigger] out@[a]).0.text(),
            (#[trigger] out@[b]).0.text(),
        ) by {
            assert(crate::text::text_before(entries@[a].0.text(), entries@[b].0.text()));
        }
    }
    out
}

/// A copy of a generation.
fn copy_generation(g: &GenerationV1) -> (r: GenerationV1)
    ensures
        r@ == g@,
    decreases g,
{
    let bootspec = copy_boot_spec(&g.bootspec);
    let entries = copy_entries(&g.specialisations);
    let specialisations = SpecialisationsV1 { entries };
    let r = GenerationV1 { bootspec, specialisations };
    proof {
        g.lemma_view();
        r.lemma_view();
    }
    r
}

impl Clone for SpecialisationsV1 {
    fn clone(&self) -> (r: Self)
        ensures
            generation_models(r@) == generation_models(self@),
    {
        let entries = copy_entries(self);
        SpecialisationsV1 { entries }
    }
}

impl Clone for GenerationV1 {
    fn clone(&self) -> (r: Self)
        ensures
            r@ == self@,
    {
        copy_generation(self)
    }
}

} // verus!
