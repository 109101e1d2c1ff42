//! Reading a model list out of a decoded response payload.
//!
//! The payload is an object whose `data` member lists the models. Entries
//! without a usable id are passed over; of entries that share an id the first
//! is kept; the list comes out in ascending order of id.

use crate::errors::{ErrorKind, ErrorView, FetchError};
use crate::json::{get_member, items_json, json_of, member, Json};
use crate::text::{
    chars_of, compare_chars, lemma_precedes_transitive, lemma_precedes_trichotomy, precedes,
    string_of, text_view, trim, trim_chars, Rank,
};
use vstd::prelude::*;

verus! {

/// One model that an endpoint offers.
#[derive(Debug, Clone)]
pub struct OpenAiModelDescriptor {
    /// The model's identifier: not empty, and unique within a list.
    pub id: String,
    pub owned_by: Option<String>,
    /// When the model was created, in seconds since the epoch.
    pub created: Option<i64>,
}

/// The mathematical value of an `OpenAiModelDescriptor`.
pub ghost struct ModelView {
    pub id: Seq<char>,
    pub owned_by: Option<Seq<char>>,
    pub created: Option<i64>,
}

impl View for OpenAiModelDescriptor {
    type V = ModelView;

    open spec fn view(&self) -> ModelView {
        ModelView {
            id: self.id@,
            owned_by: text_view(self.owned_by),
            created: self.created,
        }
    }
}

impl DeepView for OpenAiModelDescriptor {
    type V = ModelView;

    open spec fn deep_view(&self) -> ModelView {
        self@
    }
}

/// What is wrong with a payload that is no model list.
#[derive(Clone, Copy, PartialEq, Eq, Debug, Structural)]
pub enum PayloadFault {
    /// The payload is not an object.
    NotAnObject,
    /// The payload has a `data` member that is not an array.
    DataNotAnArray,
    /// An entry of `data` is not an object, or one of its members `id`,
    /// `owned_by`, `created` has the wrong type.
    MalformedEntry,
}

/// A text member that may be missing: absent and `null` both read as none.
pub open spec fn optional_text(field: Option<Json>) -> Result<Option<Seq<char>>, PayloadFault> {
    match field {
        None => Ok(None),
        Some(Json::Null) => Ok(None),
        Some(Json::Text(text)) => Ok(Some(text)),
        Some(_) => Err(PayloadFault::MalformedEntry),
    }
}

/// An integer member that may be missing: absent and `null` both read as
/// none; a number outside `i64` is a fault.
pub open spec fn optional_integer(field: Option<Json>) -> Result<Option<i64>, PayloadFault> {
    match field {
        None => Ok(None),
        Some(Json::Null) => Ok(None),
        Some(Json::Number(Some(value))) => Ok(Some(value)),
        Some(_) => Err(PayloadFault::MalformedEntry),
    }
}

/// An entry of `data` as it stands in the payload.
pub ghost struct Entry {
    pub id: Option<Seq<char>>,
    pub owned_by: Option<Seq<char>>,
    pub created: Option<i64>,
}

/// What one item of `data` reads as: an object whose members `id` and
/// `owned_by`, where present and not `null`, are texts, and whose member
/// `created`, where present and not `null`, is an integer of 64 bits.
pub open spec fn entry_of(item: Json) -> Result<Entry, PayloadFault> {
    let id = optional_text(member(item, "id"@));
    let owned_by = optional_text(member(item, "owned_by"@));
    let created = optional_integer(member(item, "created"@));
    if item is Object && id is Ok && owned_by is Ok && created is Ok {
        Ok(Entry { id: id->Ok_0, owned_by: owned_by->Ok_0, created: created->Ok_0 })
    } else {
        Err(PayloadFault::MalformedEntry)
    }
}

/// The items of a payload: those of its `data` member, none where the
/// payload has no such member.
pub open spec fn payload_items(payload: Json) -> Result<Seq<Json>, PayloadFault> {
    if payload is Object {
        match member(payload, "data"@) {
            None => Ok(Seq::empty()),
            Some(Json::Array(items)) => Ok(items),
            Some(_) => Err(PayloadFault::DataNotAnArray),
        }
    } else {
        Err(PayloadFault::NotAnObject)
    }
}

/// The model that an entry lists: none where the entry has no id, or one
/// that is blank. The id is taken trimmed.
pub open spec fn listed_model(entry: Entry) -> Option<ModelView> {
    match entry.id {
        Some(id) => if trim(id).len() > 0 {
            Some(ModelView { id: trim(id), owned_by: entry.owned_by, created: entry.created })
        } else {
            None
        },
        None => None,
    }
}

/// Whether a model of `models` has the id `id`.
pub open spec fn has_id(models: Seq<ModelView>, id: Seq<char>) -> bool {
    exists|i: int| 0 <= i < models.len() && (#[trigger] models[i]).id == id
}

/// Whether `models` is in strictly ascending order of id.
pub open spec fn ascending_by_id(models: Seq<ModelView>) -> bool {
    forall|i: int, j: int|
        0 <= i < j < models.len() ==> precedes(
            (#[trigger] models[i]).id,
            (#[trigger] models[j]).id,
        )
}

/// Whether `models` is a model list: in strictly ascending order of id, so
/// that each id stands once, and without an empty id.
pub open spec fn is_model_list(models: Seq<ModelView>) -> bool {
    &&& ascending_by_id(models)
    &&& forall|i: int| 0 <= i < models.len() ==> (#[trigger] models[i]).id.len() > 0
}

/// How many models at the head of `models` have an id that precedes `id`.
pub open spec fn insert_point(models: Seq<ModelView>, id: Seq<char>) -> nat
    decreases models.len(),
{
    if models.len() > 0 && precedes(models[0].id, id) {
        1 + insert_point(models.drop_first(), id)
    } else {
        0
    }
}

/// `models` with `model` added in its place, unless its id is taken.
pub open spec fn with_model(models: Seq<ModelView>, model: ModelView) -> Seq<ModelView> {
    if has_id(models, model.id) {
        models
    } else {
        models.insert(insert_point(models, model.id) as int, model)
    }
}

/// The models that a run of entries lists, each id once, in ascending order.
pub open spec fn listed_models(entries: Seq<Entry>) -> Seq<ModelView>
    decreases entries.len(),
{
    if entries.len() == 0 {
        Seq::empty()
    } else {
        let earlier = listed_models(entries.drop_last());
        match listed_model(entries.last()) {
            Some(model) => with_model(earlier, model),
            None => earlier,
        }
    }
}

/// Whether every one of `items` reads as an entry.
pub open spec fn all_entries_read(items: Seq<Json>) -> bool {
    forall|i: int| 0 <= i < items.len() ==> (#[trigger] entry_of(items[i])) is Ok
}

/// The entries that a payload holds, or what is wrong with it.
pub open spec fn payload_entries(payload: Json) -> Result<Seq<Entry>, PayloadFault> {
    match payload_items(payload) {
        Ok(items) => if all_entries_read(items) {
            Ok(items.map_values(|item: Json| entry_of(item)->Ok_0))
        } else {
            Err(PayloadFault::MalformedEntry)
        },
        Err(fault) => Err(fault),
    }
}

/// The model list that a payload holds, or what is wrong with it.
pub open spec fn parsed_models(payload: Json) -> Result<Seq<ModelView>, PayloadFault> {
    match payload_entries(payload) {
        Ok(entries) => Ok(listed_models(entries)),
        Err(fault) => Err(fault),
    }
}

/// What a member that may be missing holds.
pub open spec fn field_json(field: Option<&serde_json::Value>) -> Option<Json> {
    match field {
        Some(value) => Some(json_of(*value)),
        None => None,
    }
}

fn read_text(field: Option<&serde_json::Value>) -> (read: Result<Option<String>, PayloadFault>)
    ensures
        match read {
            Ok(text) => optional_text(field_json(field)) == Ok::<_, PayloadFault>(text_view(text)),
            Err(fault) => optional_text(field_json(field)) == Err::<Option<Seq<char>>, _>(fault),
        },
{
    match field {
        None => Ok(None),
        Some(value) => {
            if value.is_null() {
                Ok(None)
            } else {
                match value.as_str() {
                    Some(text) => Ok(Some(text.to_owned())),
                    None => Err(PayloadFault::MalformedEntry),
                }
            }
        },
    }
}

fn read_integer(field: Option<&serde_json::Value>) -> (read: Result<Option<i64>, PayloadFault>)
    ensures
        read == optional_integer(field_json(field)),
{
    match field {
        None => Ok(None),
        Some(value) => {
            if value.is_null() {
                Ok(None)
            } else {
                match value.as_i64() {
                    Some(number) => Ok(Some(number)),
                    None => Err(PayloadFault::MalformedEntry),
                }
            }
        },
    }
}

/// An entry of `data` as read from the payload, before any id is judged.
#[derive(Debug)]
pub struct OpenAiModelItem {
    pub id: Option<String>,
    pub owned_by: Option<String>,
    pub created: Option<i64>,
}

impl View for OpenAiModelItem {
    type V = Entry;

    open spec fn view(&self) -> Entry {
        Entry {
            id: text_view(self.id),
            owned_by: text_view(self.owned_by),
            created: self.created,
        }
    }
}

impl DeepView for OpenAiModelItem {
    type V = Entry;

    open spec fn deep_view(&self) -> Entry {
        self@
    }
}

/// Reads one item of `data`.
pub fn read_entry(item: &serde_json::Value) -> (read: Result<OpenAiModelItem, PayloadFault>)
    ensures
        match read {
            Ok(entry) => entry_of(json_of(*item)) == Ok::<_, PayloadFault>(entry@),
            Err(fault) => entry_of(json_of(*item)) == Err::<Entry, _>(fault),
        },
{
    if !item.is_object() {
        return Err(PayloadFault::MalformedEntry);
    }
    let id = read_text(get_member(item, "id"));
    let owned_by = read_text(get_member(item, "owned_by"));
    let created = read_integer(get_member(item, "created"));
    match (id, owned_by, created) {
        (Ok(id), Ok(owned_by), Ok(created)) => Ok(OpenAiModelItem { id, owned_by, created }),
        _ => Err(PayloadFault::MalformedEntry),
    }
}

/// The insertion point splits `models`: every id before it precedes `id`,
/// and the id at it, where there is one, does not.
pub proof fn lemma_insert_point_splits(models: Seq<ModelView>, id: Seq<char>)
    ensures
        insert_point(models, id) <= models.len(),
        forall|i: int|
            0 <= i < insert_point(models, id) ==> precedes((#[trigger] models[i]).id, id),
        insert_point(models, id) < models.len() ==> !precedes(
            models[insert_point(models, id) as int].id,
            id,
        ),
    decreases models.len(),
{
    if models.len() > 0 && precedes(models[0].id, id) {
        let rest = models.drop_first();
        lemma_insert_point_splits(rest, id);
        assert forall|i: int| 0 <= i < insert_point(models, id) implies precedes(
            (#[trigger] models[i]).id,
            id,
        ) by {
            if i > 0 {
                assert(models[i] == rest[i - 1]);
            }
        }
        if insert_point(models, id) < models.len() {
            assert(models[insert_point(models, id) as int] == rest[insert_point(rest, id) as int]);
        }
    }
}

/// A position that splits `models` as the insertion point does is the
/// insertion point.
pub proof fn lemma_insert_point_is(models: Seq<ModelView>, id: Seq<char>, at: int)
    requires
        0 <= at <= models.len(),
        forall|i: int| 0 <= i < at ==> precedes((#[trigger] models[i]).id, id),
        at < models.len() ==> !precedes(models[at].id, id),
    ensures
        insert_point(models, id) == at,
{
    lemma_insert_point_splits(models, id);
    let point = insert_point(models, id) as int;
    if point < at {
        assert(precedes(models[point].id, id));
    } else if at < point {
        assert(precedes(models[at].id, id));
    }
}

/// Adding a model keeps the list in ascending order.
pub proof fn lemma_with_model_ascending(models: Seq<ModelView>, model: ModelView)
    requires
        ascending_by_id(models),
    ensures
        ascending_by_id(with_model(models, model)),
{
    if !has_id(models, model.id) {
        lemma_insert_point_splits(models, model.id);
        let at = insert_point(models, model.id) as int;
        let grown = models.insert(at, model);
        assert forall|i: int, j: int| 0 <= i < j < grown.len() implies precedes(
            (#[trigger] grown[i]).id,
            (#[trigger] grown[j]).id,
        ) by {
            if i == at {
                // grown[j] is models[j - 1], at or after the insertion point
                lemma_precedes_trichotomy(model.id, models[at].id);
                assert(models[at].id != model.id);
                if j - 1 > at {
                    assert(precedes(models[at].id, models[j - 1].id));
                    lemma_precedes_transitive(model.id, models[at].id, models[j - 1].id);
                }
            } else if j == at {
                assert(grown[i] == models[i]);
            } else {
                let from_i = if i < at { i } else { i - 1 };
                let from_j = if j < at { j } else { j - 1 };
                assert(grown[i] == models[from_i]);
                assert(grown[j] == models[from_j]);
            }
        }
    }
}

/// Whether `entry` lists a model with the id `id`.
pub open spec fn lists_id(entry: Entry, id: Seq<char>) -> bool {
    match listed_model(entry) {
        Some(model) => model.id == id,
        None => false,
    }
}

/// Whether the entry at `at` lists `model` and is the first to list its id.
pub open spec fn is_first_listing(entries: Seq<Entry>, at: int, model: ModelView) -> bool {
    &&& 0 <= at < entries.len()
    &&& listed_model(entries[at]) == Some(model)
    &&& forall|e: int| 0 <= e < at ==> !lists_id(#[trigger] entries[e], model.id)
}

/// Whether `model` is what the first entry with its id lists.
pub open spec fn first_listed(entries: Seq<Entry>, model: ModelView) -> bool {
    exists|k: int| #[trigger] is_first_listing(entries, k, model)
}

/// The list a run of entries yields is in strictly ascending order of id, so
/// that no id occurs in it twice.
pub proof fn lemma_listed_models_ascending(entries: Seq<Entry>)
    ensures
        ascending_by_id(listed_models(entries)),
        forall|i: int, j: int|
            0 <= i < j < listed_models(entries).len() ==> (#[trigger] listed_models(entries)[i]).id
                != (#[trigger] listed_models(entries)[j]).id,
    decreases entries.len(),
{
    if entries.len() > 0 {
        lemma_listed_models_ascending(entries.drop_last());
        if let Some(model) = listed_model(entries.last()) {
            lemma_with_model_ascending(listed_models(entries.drop_last()), model);
        }
    }
    let list = listed_models(entries);
    assert forall|i: int, j: int| 0 <= i < j < list.len() implies (#[trigger] list[i]).id != (
    #[trigger] list[j]).id by {
        lemma_precedes_trichotomy(list[i].id, list[j].id);
    }
}

/// First seen wins: every entry that lists a model has its id in the list,
/// and every model in the list is the one that the first entry with its id
/// lists.
pub proof fn lemma_first_entry_wins(entries: Seq<Entry>)
    ensures
        forall|k: int|
            0 <= k < entries.len() && listed_model(#[trigger] entries[k]) is Some ==> has_id(
                listed_models(entries),
                listed_model(entries[k])->Some_0.id,
            ),
        forall|j: int|
            0 <= j < listed_models(entries).len() ==> first_listed(
                entries,
                #[trigger] listed_models(entries)[j],
            ),
    decreases entries.len(),
{
    if entries.len() > 0 {
        let shorter = entries.drop_last();
        let last = entries.len() - 1;
        lemma_first_entry_wins(shorter);
        let earlier = listed_models(shorter);
        let list = listed_models(entries);
        let added = listed_model(entries.last()) is Some && !has_id(
            earlier,
            listed_model(entries.last())->Some_0.id,
        );
        let at = if added {
            insert_point(earlier, listed_model(entries.last())->Some_0.id) as int
        } else {
            0
        };
        if added {
            lemma_insert_point_splits(earlier, listed_model(entries.last())->Some_0.id);
        }
        assert forall|k: int|
            0 <= k < entries.len() && listed_model(#[trigger] entries[k]) is Some implies has_id(
            list,
            listed_model(entries[k])->Some_0.id,
        ) by {
            let id = listed_model(entries[k])->Some_0.id;
            if k < last {
                assert(entries[k] == shorter[k]);
                assert(has_id(earlier, id));
                let i = choose|i: int| 0 <= i < earlier.len() && (#[trigger] earlier[i]).id == id;
                if added {
                    let moved = if i < at { i } else { i + 1 };
                    assert(list[moved] == earlier[i]);
                }
            } else if added {
                assert(list[at] == listed_model(entries.last())->Some_0);
            }
        }
        assert forall|j: int| 0 <= j < list.len() implies first_listed(entries, #[trigger] list[j]) by {
            if added && j == at {
                let model = listed_model(entries.last())->Some_0;
                assert(list[j] == model);
                assert forall|e: int| 0 <= e < last implies !lists_id(
                    #[trigger] entries[e],
                    model.id,
                ) by {
                    if lists_id(entries[e], model.id) {
                        assert(entries[e] == shorter[e]);
                        assert(has_id(earlier, listed_model(shorter[e])->Some_0.id));
                    }
                }
                assert(is_first_listing(entries, last, list[j]));
            } else {
                let from = if added && j > at { j - 1 } else { j };
                assert(list[j] == earlier[from]);
                let k = choose|k: int| #[trigger] is_first_listing(shorter, k, earlier[from]);
                assert(entries[k] == shorter[k]);
                assert forall|e: int| 0 <= e < k implies !lists_id(
                    #[trigger] entries[e],
                    list[j].id,
                ) by {
                    assert(entries[e] == shorter[e]);
                }
                assert(is_first_listing(entries, k, list[j]));
            }
        }
    }
}

/// What a run of entries yields is a model list.
pub proof fn lemma_listed_models_are_a_model_list(entries: Seq<Entry>)
    ensures
        is_model_list(listed_models(entries)),
{
    lemma_listed_models_ascending(entries);
    lemma_first_entry_wins(entries);
    let list = listed_models(entries);
    assert forall|j: int| 0 <= j < list.len() implies (#[trigger] list[j]).id.len() > 0 by {
        let k = choose|k: int| #[trigger] is_first_listing(entries, k, list[j]);
        assert(listed_model(entries[k]) == Some(list[j]));
    }
}

/// Two lists in ascending order that hold the same ids hold them at the
/// same places.
pub proof fn lemma_ascending_lists_agree(a: Seq<ModelView>, b: Seq<ModelView>)
    requires
        ascending_by_id(a),
        ascending_by_id(b),
        forall|i: int| 0 <= i < a.len() ==> has_id(b, (#[trigger] a[i]).id),
        forall|j: int| 0 <= j < b.len() ==> has_id(a, (#[trigger] b[j]).id),
    ensures
        a.len() == b.len(),
        forall|i: int| 0 <= i < a.len() ==> (#[trigger] a[i]).id == b[i].id,
    decreases a.len(),
{
    if a.len() == 0 {
        if b.len() > 0 {
            assert(has_id(a, b[0].id));
        }
    } else {
        assert(has_id(b, a[0].id));
        let j = choose|j: int| 0 <= j < b.len() && (#[trigger] b[j]).id == a[0].id;
        assert(has_id(a, b[0].id));
        let i = choose|i: int| 0 <= i < a.len() && (#[trigger] a[i]).id == b[0].id;
        lemma_precedes_trichotomy(a[0].id, b[0].id);
        if j > 0 {
            assert(precedes(b[0].id, b[j].id));
            if i > 0 {
                assert(precedes(a[0].id, a[i].id));
            }
        }
        assert(a[0].id == b[0].id);
        let rest_a = a.drop_first();
        let rest_b = b.drop_first();
        assert forall|i: int| 0 <= i < rest_a.len() implies has_id(
            rest_b,
            (#[trigger] rest_a[i]).id,
        ) by {
            assert(rest_a[i] == a[i + 1]);
            assert(has_id(b, a[i + 1].id));
            let at = choose|at: int| 0 <= at < b.len() && (#[trigger] b[at]).id == a[i + 1].id;
            assert(precedes(a[0].id, a[i + 1].id));
            lemma_precedes_trichotomy(a[0].id, a[i + 1].id);
            assert(rest_b[at - 1] == b[at]);
        }
        assert forall|j: int| 0 <= j < rest_b.len() implies has_id(
            rest_a,
            (#[trigger] rest_b[j]).id,
        ) by {
            assert(rest_b[j] == b[j + 1]);
            assert(has_id(a, b[j + 1].id));
            let at = choose|at: int| 0 <= at < a.len() && (#[trigger] a[at]).id == b[j + 1].id;
            assert(precedes(b[0].id, b[j + 1].id));
            lemma_precedes_trichotomy(b[0].id, b[j + 1].id);
            assert(rest_a[at - 1] == a[at]);
        }
        assert(ascending_by_id(rest_a)) by {
            assert forall|i: int, j: int| 0 <= i < j < rest_a.len() implies precedes(
                (#[trigger] rest_a[i]).id,
                (#[trigger] rest_a[j]).id,
            ) by {
                assert(rest_a[i] == a[i + 1] && rest_a[j] == a[j + 1]);
            }
        }
        assert(ascending_by_id(rest_b)) by {
            assert forall|i: int, j: int| 0 <= i < j < rest_b.len() implies precedes(
                (#[trigger] rest_b[i]).id,
                (#[trigger] rest_b[j]).id,
            ) by {
                assert(rest_b[i] == b[i + 1] && rest_b[j] == b[j + 1]);
            }
        }
        lemma_ascending_lists_agree(rest_a, rest_b);
        assert forall|i: int| 0 <= i < a.len() implies (#[trigger] a[i]).id == b[i].id by {
            if i > 0 {
                assert(rest_a[i - 1] == a[i]);
                assert(rest_b[i - 1] == b[i]);
            }
        }
    }
}

/// The list is determined by what it is said to be: a list in ascending
/// order of id that holds the id of every entry that lists a model, and for
/// each id what the first entry with that id lists, is the list that
/// `listed_models` gives. The order of the entries bears on it only through
/// which entry of one id comes first.
pub proof fn lemma_model_list_is_determined(entries: Seq<Entry>, list: Seq<ModelView>)
    requires
        ascending_by_id(list),
        forall|j: int| 0 <= j < list.len() ==> first_listed(entries, #[trigger] list[j]),
        forall|k: int|
            0 <= k < entries.len() && listed_model(#[trigger] entries[k]) is Some ==> has_id(
                list,
                listed_model(entries[k])->Some_0.id,
            ),
    ensures
        list == listed_models(entries),
{
    let other = listed_models(entries);
    lemma_listed_models_ascending(entries);
    lemma_first_entry_wins(entries);
    assert forall|i: int| 0 <= i < list.len() implies has_id(other, (#[trigger] list[i]).id) by {
        let k = choose|k: int| #[trigger] is_first_listing(entries, k, list[i]);
        assert(listed_model(entries[k]) is Some);
    }
    assert forall|j: int| 0 <= j < other.len() implies has_id(list, (#[trigger] other[j]).id) by {
        let k = choose|k: int| #[trigger] is_first_listing(entries, k, other[j]);
        assert(listed_model(entries[k]) is Some);
    }
    lemma_ascending_lists_agree(list, other);
    assert forall|i: int| 0 <= i < list.len() implies list[i] == other[i] by {
        assert(list[i].id == other[i].id);
        let k1 = choose|k: int| #[trigger] is_first_listing(entries, k, list[i]);
        let k2 = choose|k: int| #[trigger] is_first_listing(entries, k, other[i]);
        if k1 < k2 {
            assert(lists_id(entries[k1], other[i].id));
        } else if k2 < k1 {
            assert(lists_id(entries[k2], list[i].id));
        }
    }
    assert(list =~= other);
}

/// The message for a payload that is no model list.
pub open spec fn payload_fault_message(fault: PayloadFault) -> Seq<char> {
    "模型列表解析失败: "@ + match fault {
        PayloadFault::NotAnObject => "payload is not an object"@,
        PayloadFault::DataNotAnArray => "`data` is not an array"@,
        PayloadFault::MalformedEntry => "malformed entry in `data`"@,
    }
}

/// Whether `keys` holds, place by place, the ids of `models`.
pub open spec fn keys_match(keys: Seq<Vec<char>>, models: Seq<ModelView>) -> bool {
    &&& keys.len() == models.len()
    &&& forall|i: int| 0 <= i < keys.len() ==> (#[trigger] keys[i])@ == models[i].id
}

/// Adds the model that `entry` lists, if any, to the list in `models`,
/// whose ids `keys` holds as characters.
fn add_entry(
    keys: &mut Vec<Vec<char>>,
    models: &mut Vec<OpenAiModelDescriptor>,
    entry: OpenAiModelItem,
)
    requires
        keys_match(old(keys)@, old(models).deep_view()),
        ascending_by_id(old(models).deep_view()),
    ensures
        keys_match(final(keys)@, final(models).deep_view()),
        ascending_by_id(final(models).deep_view()),
        final(models).deep_view() == match listed_model(entry@) {
            Some(model) => with_model(old(models).deep_view(), model),
            None => old(models).deep_view(),
        },
{
    let OpenAiModelItem { id, owned_by, created } = entry;
    let id = match id {
        Some(id) => id,
        None => {
            return ;
        },
    };
    let raw = chars_of(id.as_str());
    let key = trim_chars(&raw);
    if key.len() == 0 {
        return ;
    }
    let ghost before = models.deep_view();
    let ghost model = ModelView { id: key@, owned_by: text_view(owned_by), created };
    assert(listed_model(entry@) == Some(model));
    let mut at: usize = 0;
    while at < keys.len() && matches!(compare_chars(&keys[at], &key), Rank::Before)
        invariant
            at <= keys.len(),
            keys_match(keys@, before),
            forall|i: int| 0 <= i < at ==> precedes((#[trigger] before[i]).id, key@),
        decreases keys.len() - at,
    {
        at += 1;
    }
    if at < keys.len() {
        let rank = compare_chars(&keys[at], &key);
        if matches!(rank, Rank::Same) {
            assert(before[at as int].id == key@);
            assert(has_id(before, key@));
            return ;
        }
    }
    proof {
        lemma_insert_point_is(before, key@, at as int);
        assert(!has_id(before, key@)) by {
            if has_id(before, key@) {
                let i = choose|i: int| 0 <= i < before.len() && (#[trigger] before[i]).id == key@;
                lemma_precedes_trichotomy(before[i].id, key@);
                if i >= at {
                    lemma_precedes_trichotomy(before[at as int].id, key@);
                    if i > at {
                        assert(precedes(before[at as int].id, before[i].id));
                    }
                    lemma_precedes_trichotomy(key@, before[at as int].id);
                }
            }
        }
        lemma_with_model_ascending(before, model);
    }
    let descriptor = OpenAiModelDescriptor { id: string_of(&key), owned_by, created };
    assert(descriptor@ == model);
    models.insert(at, descriptor);
    keys.insert(at, key);
    proof {
        assert(models.deep_view() =~= before.insert(at as int, model));
        assert forall|i: int| 0 <= i < keys@.len() implies (#[trigger] keys@[i])@
            == models.deep_view()[i].id by {
            if i < at {
                assert(keys@[i] == old(keys)@[i]);
            } else if i > at {
                assert(keys@[i] == old(keys)@[i - 1]);
            }
        }
    }
}

/// Reads the entries out of a payload, or says what is wrong with it.
///
/// The payload must be an object. Its member `data`, where it has one, must
/// be an array, and each of its items must read as an entry.
pub fn read_payload(payload: &serde_json::Value) -> (read: Result<
    Vec<OpenAiModelItem>,
    PayloadFault,
>)
    ensures
        match read {
            Ok(entries) => payload_entries(json_of(*payload)) == Ok::<_, PayloadFault>(
                entries.deep_view(),
            ),
            Err(fault) => payload_entries(json_of(*payload)) == Err::<Seq<Entry>, _>(fault),
        },
{
    if !payload.is_object() {
        return Err(PayloadFault::NotAnObject);
    }
    let mut entries: Vec<OpenAiModelItem> = Vec::new();
    let items = match get_member(payload, "data") {
        None => {
            assert(entries.deep_view() =~= Seq::<Json>::empty().map_values(
                |item: Json| entry_of(item)->Ok_0,
            ));
            return Ok(entries);
        },
        Some(data) => match data.as_array() {
            Some(items) => items,
            None => {
                return Err(PayloadFault::DataNotAnArray);
            },
        },
    };
    let ghost all = items_json(items@);
    let mut i: usize = 0;
    while i < items.len()
        invariant
            i <= items.len(),
            all == items_json(items@),
            payload_items(json_of(*payload)) == Ok::<_, PayloadFault>(all),
            entries.len() == i,
            forall|k: int| 0 <= k < i ==> entry_of(#[trigger] all[k]) == Ok::<_, PayloadFault>(
                entries[k]@,
            ),
        decreases items.len() - i,
    {
        match read_entry(&items[i]) {
            Ok(entry) => {
                entries.push(entry);
            },
            Err(_) => {
                assert(!(entry_of(all[i as int]) is Ok));
                return Err(PayloadFault::MalformedEntry);
            },
        }
        i += 1;
    }
    assert(all_entries_read(all));
    assert(entries.deep_view() =~= all.map_values(|item: Json| entry_of(item)->Ok_0));
    Ok(entries)
}

/// Gathers the models that the entries list: entries without an id, or
/// with a blank one, are passed over; of several entries with one id the
/// first is kept; the list is in ascending order of id.
pub fn collect_models(entries: Vec<OpenAiModelItem>) -> (models: Vec<OpenAiModelDescriptor>)
    ensures
        models.deep_view() == listed_models(entries.deep_view()),
        is_model_list(models.deep_view()),
{
    let ghost all = entries.deep_view();
    let mut models: Vec<OpenAiModelDescriptor> = Vec::new();
    let mut keys: Vec<Vec<char>> = Vec::new();
    assert(all.take(0) =~= Seq::<Entry>::empty());
    for entry in it: entries.into_iter()
        invariant
            it.seq() == entries@,
            all == entries.deep_view(),
            keys_match(keys@, models.deep_view()),
            ascending_by_id(models.deep_view()),
            models.deep_view() == listed_models(all.take(it.index() as int)),
    {
        proof {
            let i = it.index() as int;
            assert(all.take(i + 1).drop_last() =~= all.take(i));
            assert(all.take(i + 1).last() == entry@);
        }
        add_entry(&mut keys, &mut models, entry);
    }
    proof {
        assert(all.take(all.len() as int) =~= all);
        lemma_listed_models_are_a_model_list(all);
    }
    models
}

/// The error for a payload that is no model list.
pub open spec fn payload_error(fault: PayloadFault) -> ErrorView {
    ErrorView { kind: ErrorKind::ParseFailure, message: payload_fault_message(fault) }
}

/// What parsing a payload comes to: the model list, or the error.
pub open spec fn payload_outcome(payload: Json) -> Result<Seq<ModelView>, ErrorView> {
    match parsed_models(payload) {
        Ok(models) => Ok(models),
        Err(fault) => Err(payload_error(fault)),
    }
}

/// The view of a parse result.
pub open spec fn outcome_view(result: Result<Vec<OpenAiModelDescriptor>, FetchError>) -> Result<
    Seq<ModelView>,
    ErrorView,
> {
    match result {
        Ok(models) => Ok(models.deep_view()),
        Err(error) => Err(error@),
    }
}

/// Words the error for a payload that is no model list.
pub fn map_payload_fault(fault: PayloadFault) -> (error: FetchError)
    ensures
        error@ == payload_error(fault),
{
    let mut message = String::new();
    message.append("模型列表解析失败: ");
    match fault {
        PayloadFault::NotAnObject => message.append("payload is not an object"),
        PayloadFault::DataNotAnArray => message.append("`data` is not an array"),
        PayloadFault::MalformedEntry => message.append("malformed entry in `data`"),
    }
    FetchError { kind: ErrorKind::ParseFailure, message }
}

/// Parses the decoded body of a 2xx answer into the model list.
///
/// The payload must be an object. Its member `data`, where it has one, must
/// be an array of objects. Entries without an id, or with a blank one, are
/// passed over; of several entries with one id the first is kept; the list
/// is in ascending order of id.
pub fn parse_models_from_payload(payload: serde_json::Value) -> (result: Result<
    Vec<OpenAiModelDescriptor>,
    FetchError,
>)
    ensures
        outcome_view(result) == payload_outcome(json_of(payload)),
        result is Ok ==> is_model_list(result->Ok_0.deep_view()),
{
    match read_payload(&payload) {
        Ok(entries) => Ok(collect_models(entries)),
        Err(fault) => Err(map_payload_fault(fault)),
    }
}

} // verus!
