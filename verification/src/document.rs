//! Data documents: from a JSON document to typed data and back. Members that
//! the model does not know are kept, in their order, and written out again.

use crate::json::{
    clone_json, json_model, json_models, lemma_model_of_array, lemma_model_of_object, JsonModel,
    JsonValue,
};
use crate::models::{item_models, Item, ItemModel, TaxonomyData};
use crate::strmap::{keys_of, lemma_position_bounds, position, StrMap};
use crate::text::{lemma_texts_push, texts};
use vstd::prelude::*;
use vstd::string::StringExecFns;

verus! {

/// The members of an object, as the model has them.
pub type Members = Seq<(Seq<char>, JsonModel)>;

/// Why a document is not of the expected shape.
#[derive(Debug, PartialEq, Eq)]
pub enum FieldError {
    /// The document is not an object.
    NotAnObject,
    /// The member of this name is missing.
    MissingField(String),
    /// The member of this name is of the wrong kind.
    WrongType(String),
}

/// Why a data document could not be read.
#[derive(Debug, PartialEq, Eq)]
pub enum DataError {
    /// The document itself is not of the expected shape.
    Document(FieldError),
    /// The item at this position (counted from zero) is not.
    Item(usize, FieldError),
}

/// The model of a `FieldError`.
pub enum FieldFault {
    NotAnObject,
    MissingField(Seq<char>),
    WrongType(Seq<char>),
}

/// The model of a `DataError`.
pub enum DataFault {
    Document(FieldFault),
    Item(int, FieldFault),
}

impl FieldError {
    /// The model of the error.
    pub open spec fn fault(&self) -> FieldFault {
        match *self {
            FieldError::NotAnObject => FieldFault::NotAnObject,
            FieldError::MissingField(name) => FieldFault::MissingField(name@),
            FieldError::WrongType(name) => FieldFault::WrongType(name@),
        }
    }
}

impl DataError {
    /// The model of the error.
    pub open spec fn fault(&self) -> DataFault {
        match *self {
            DataError::Document(e) => DataFault::Document(e.fault()),
            DataError::Item(i, e) => DataFault::Item(i as int, e.fault()),
        }
    }
}

/// The model of typed data.
pub struct DataModel {
    pub schema: Seq<char>,
    pub items: Seq<ItemModel>,
    pub extra: Members,
}

impl DeepView for TaxonomyData {
    type V = DataModel;

    open spec fn deep_view(&self) -> DataModel {
        DataModel {
            schema: self.schema@,
            items: item_models(self.items@),
            extra: self.extra.deep_view(),
        }
    }
}

/// The member called `key`.
pub open spec fn member(o: Members, key: Seq<char>) -> Option<JsonModel> {
    let p = position(keys_of(o), key);
    if p < o.len() {
        Some(o[p].1)
    } else {
        None
    }
}

/// The members whose names are not among `reserved`, in order.
pub open spec fn other_members(o: Members, reserved: Seq<Seq<char>>) -> Members
    decreases o.len(),
{
    if o.len() == 0 {
        o
    } else if reserved.contains(o.last().0) {
        other_members(o.drop_last(), reserved)
    } else {
        other_members(o.drop_last(), reserved).push(o.last())
    }
}

/// The texts of an array of strings; none where an element is not a string.
pub open spec fn texts_of(a: Seq<JsonModel>) -> Option<Seq<Seq<char>>>
    decreases a.len(),
{
    if a.len() == 0 {
        Some(Seq::<Seq<char>>::empty())
    } else {
        match (texts_of(a.drop_last()), a.last()) {
            (Some(list), JsonModel::Text(s)) => Some(list.push(s)),
            _ => None,
        }
    }
}

/// The names that an item document gives a meaning to.
pub open spec fn item_fields() -> Seq<Seq<char>> {
    seq!["name"@, "classical_path"@, "facets"@]
}

/// The names that a data document gives a meaning to.
pub open spec fn data_fields() -> Seq<Seq<char>> {
    seq!["schema"@, "items"@]
}

/// The item that a document denotes: an object with the string `name`, the
/// array of strings `classical_path` and the object `facets`; its other
/// members are the item's extra fields. The members are looked at in this
/// order, and the first that is missing or of the wrong kind is the error.
pub open spec fn item_of(j: JsonModel) -> Result<ItemModel, FieldFault> {
    match j {
        JsonModel::Object(o) => match member(o, "name"@) {
            None => Err(FieldFault::MissingField("name"@)),
            Some(JsonModel::Text(name)) => match member(o, "classical_path"@) {
                None => Err(FieldFault::MissingField("classical_path"@)),
                Some(JsonModel::Array(a)) => match texts_of(a) {
                    None => Err(FieldFault::WrongType("classical_path"@)),
                    Some(path) => match member(o, "facets"@) {
                        None => Err(FieldFault::MissingField("facets"@)),
                        Some(JsonModel::Object(f)) => Ok(
                            ItemModel {
                                name,
                                classical_path: path,
                                facets: f,
                                extra: other_members(o, item_fields()),
                            },
                        ),
                        Some(_) => Err(FieldFault::WrongType("facets"@)),
                    },
                },
                Some(_) => Err(FieldFault::WrongType("classical_path"@)),
            },
            Some(_) => Err(FieldFault::WrongType("name"@)),
        },
        _ => Err(FieldFault::NotAnObject),
    }
}

/// The document that stands for an item: `name`, `classical_path` and
/// `facets`, and after them the extra fields whose names are none of these.
pub open spec fn item_document(m: ItemModel) -> JsonModel {
    JsonModel::Object(
        seq![
            ("name"@, JsonModel::Text(m.name)),
            (
                "classical_path"@,
                JsonModel::Array(Seq::new(m.classical_path.len(), |i: int| JsonModel::Text(m.classical_path[i]))),
            ),
            ("facets"@, JsonModel::Object(m.facets)),
        ] + other_members(m.extra, item_fields()),
    )
}

/// The items that the first `upto` elements of an array denote, or the first fault.
pub open spec fn items_of(a: Seq<JsonModel>, upto: int) -> Result<Seq<ItemModel>, DataFault>
    decreases upto,
{
    if upto <= 0 {
        Ok(Seq::<ItemModel>::empty())
    } else {
        match items_of(a, upto - 1) {
            Err(e) => Err(e),
            Ok(list) => match item_of(a[upto - 1]) {
                Ok(item) => Ok(list.push(item)),
                Err(e) => Err(DataFault::Item(upto - 1, e)),
            },
        }
    }
}

/// The data that a document denotes: an object with the string `schema` and
/// the array `items` of item documents; its other members are the extra fields.
pub open spec fn data_of(j: JsonModel) -> Result<DataModel, DataFault> {
    match j {
        JsonModel::Object(o) => match member(o, "schema"@) {
            None => Err(DataFault::Document(FieldFault::MissingField("schema"@))),
            Some(JsonModel::Text(schema)) => match member(o, "items"@) {
                None => Err(DataFault::Document(FieldFault::MissingField("items"@))),
                Some(JsonModel::Array(a)) => match items_of(a, a.len() as int) {
                    Err(e) => Err(e),
                    Ok(items) => Ok(
                        DataModel { schema, items, extra: other_members(o, data_fields()) },
                    ),
                },
                Some(_) => Err(DataFault::Document(FieldFault::WrongType("items"@))),
            },
            Some(_) => Err(DataFault::Document(FieldFault::WrongType("schema"@))),
        },
        _ => Err(DataFault::Document(FieldFault::NotAnObject)),
    }
}

/// The document that stands for data: `schema` and `items`, and after them
/// the extra fields whose names are none of these.
pub open spec fn data_document(m: DataModel) -> JsonModel {
    JsonModel::Object(
        seq![
            ("schema"@, JsonModel::Text(m.schema)),
            ("items"@, JsonModel::Array(Seq::new(m.items.len(), |i: int| item_document(m.items[i])))),
        ] + other_members(m.extra, data_fields()),
    )
}

/// What a map of documents holds under `key`, as the model sees it.
pub proof fn lemma_member_of_map(m: StrMap<JsonValue>, key: Seq<char>)
    ensures
        keys_of(m.deep_view()) == m.spec_keys(),
        member(m.deep_view(), key) == match m.spec_get(key) {
            Some(v) => Some(json_model(v)),
            None => None,
        },
{
    assert(keys_of(m.deep_view()) =~= m.spec_keys());
    lemma_position_bounds(m.spec_keys(), key);
}

fn array_texts(a: &Vec<JsonValue>) -> (r: Option<Vec<String>>)
    ensures
        match r {
            Some(list) => texts_of(json_models(a@)) == Some(texts(list@)),
            None => texts_of(json_models(a@)) is None,
        },
{
    let ghost models = json_models(a@);
    let mut out: Vec<String> = Vec::new();
    let mut i: usize = 0;
    assert(texts(out@) =~= Seq::<Seq<char>>::empty());
    assert(models.take(0) =~= Seq::<JsonModel>::empty());
    while i < a.len()
        invariant
            i <= a@.len(),
            models == json_models(a@),
            texts_of(models.take(i as int)) == Some(texts(out@)),
        decreases a@.len() - i,
    {
        proof {
            assert(models.take(i + 1).drop_last() =~= models.take(i as int));
            assert(models.take(i + 1).last() == json_model(a@[i as int]));
        }
        match &a[i] {
            JsonValue::Text(s) => {
                let piece = s.clone();
                proof {
                    lemma_texts_push(out@, piece);
                }
                out.push(piece);
            },
            _ => {
                proof {
                    lemma_texts_of_fails(models, i as int);
                }
                return None;
            },
        }
        i += 1;
    }
    assert(models.take(a@.len() as int) =~= models);
    Some(out)
}

proof fn lemma_texts_of_fails(a: Seq<JsonModel>, i: int)
    requires
        0 <= i < a.len(),
        !(a[i] is Text),
    ensures
        texts_of(a) is None,
    decreases a.len(),
{
    if i < a.len() - 1 {
        assert(a.drop_last()[i] == a[i]);
        lemma_texts_of_fails(a.drop_last(), i);
    }
}

/// Copies of the members whose names are not among `reserved`, in order.
#[verifier::rlimit(50)]
pub fn members_except(m: &StrMap<JsonValue>, reserved: &Vec<String>) -> (r: StrMap<JsonValue>)
    ensures
        r.deep_view() == other_members(m.deep_view(), texts(reserved@)),
{
    let ghost o = m.deep_view();
    let mut entries: Vec<(String, JsonValue)> = Vec::new();
    let mut i: usize = 0;
    assert((StrMap { entries }).deep_view() =~= other_members(o.take(0), texts(reserved@)));
    while i < m.len()
        invariant
            i <= m.entries@.len(),
            o == m.deep_view(),
            (StrMap { entries }).deep_view() == other_members(o.take(i as int), texts(reserved@)),
        decreases m.entries@.len() - i,
    {
        proof {
            assert(o.take(i + 1).drop_last() =~= o.take(i as int));
            assert(o.take(i + 1).last() == o[i as int]);
        }
        let key = m.key_at(i);
        if !crate::validation::contains_string(reserved, key.as_str()) {
            let ghost before = StrMap { entries };
            let k = key.clone();
            let v = clone_json(m.value_at(i));
            entries.push((k, v));
            assert((StrMap { entries }).deep_view() =~= before.deep_view().push(o[i as int]));
        }
        i += 1;
    }
    assert(o.take(m.entries@.len() as int) =~= o);
    StrMap { entries }
}

fn names(a: &str, b: &str, c: Option<&str>) -> (r: Vec<String>)
    ensures
        texts(r@) == match c {
            Some(x) => seq![a@, b@, x@],
            None => seq![a@, b@],
        },
{
    let mut r: Vec<String> = Vec::new();
    r.push(a.to_owned());
    r.push(b.to_owned());
    match c {
        Some(x) => {
            r.push(x.to_owned());
            assert(texts(r@) =~= seq![a@, b@, x@]);
        },
        None => {
            assert(texts(r@) =~= seq![a@, b@]);
        },
    }
    r
}

/// Reads an item from its document.
#[verifier::rlimit(50)]
pub fn item_from_json(v: &JsonValue) -> (r: Result<Item, FieldError>)
    ensures
        match r {
            Ok(item) => item_of(json_model(*v)) == Ok::<ItemModel, FieldFault>(item.deep_view()),
            Err(e) => item_of(json_model(*v)) == Err::<ItemModel, FieldFault>(e.fault()),
        },
{
    match v {
        JsonValue::Object(m) => {
            proof {
                lemma_model_of_object(*m);
                lemma_member_of_map(*m, "name"@);
                lemma_member_of_map(*m, "classical_path"@);
                lemma_member_of_map(*m, "facets"@);
            }
            let name = match m.get("name") {
                None => {
                    return Err(FieldError::MissingField(String::from_str("name")));
                },
                Some(JsonValue::Text(s)) => s.clone(),
                Some(_) => {
                    return Err(FieldError::WrongType(String::from_str("name")));
                },
            };
            let classical_path = match m.get("classical_path") {
                None => {
                    return Err(FieldError::MissingField(String::from_str("classical_path")));
                },
                Some(JsonValue::Array(a)) => {
                    proof {
                        lemma_model_of_array(*a);
                    }
                    match array_texts(a) {
                        Some(path) => path,
                        None => {
                            return Err(FieldError::WrongType(String::from_str("classical_path")));
                        },
                    }
                },
                Some(_) => {
                    return Err(FieldError::WrongType(String::from_str("classical_path")));
                },
            };
            let facets = match m.get("facets") {
                None => {
                    return Err(FieldError::MissingField(String::from_str("facets")));
                },
                Some(JsonValue::Object(f)) => {
                    proof {
                        lemma_model_of_object(*f);
                    }
                    crate::json::clone_members(f)
                },
                Some(_) => {
                    return Err(FieldError::WrongType(String::from_str("facets")));
                },
            };
            let reserved = names("name", "classical_path", Some("facets"));
            let extra = members_except(m, &reserved);
            Ok(Item { name, classical_path, facets, extra })
        },
        _ => Err(FieldError::NotAnObject),
    }
}

proof fn lemma_items_of_fail(a: Seq<JsonModel>, at: int, upto: int)
    requires
        0 <= at < upto,
        items_of(a, at + 1) is Err,
    ensures
        items_of(a, upto) == items_of(a, at + 1),
    decreases upto,
{
    if at + 1 < upto {
        lemma_items_of_fail(a, at, upto - 1);
    }
}

/// Reads data from a data document.
#[verifier::loop_isolation(false)]
#[verifier::rlimit(50)]
pub fn data_from_json(v: &JsonValue) -> (r: Result<TaxonomyData, DataError>)
    ensures
        match r {
            Ok(data) => data_of(json_model(*v)) == Ok::<DataModel, DataFault>(data.deep_view()),
            Err(e) => data_of(json_model(*v)) == Err::<DataModel, DataFault>(e.fault()),
        },
{
    match v {
        JsonValue::Object(m) => {
            proof {
                lemma_model_of_object(*m);
                lemma_member_of_map(*m, "schema"@);
                lemma_member_of_map(*m, "items"@);
            }
            let schema = match m.get("schema") {
                None => {
                    return Err(
                        DataError::Document(FieldError::MissingField(String::from_str("schema"))),
                    );
                },
                Some(JsonValue::Text(s)) => s.clone(),
                Some(_) => {
                    return Err(
                        DataError::Document(FieldError::WrongType(String::from_str("schema"))),
                    );
                },
            };
            let items = match m.get("items") {
                None => {
                    return Err(
                        DataError::Document(FieldError::MissingField(String::from_str("items"))),
                    );
                },
                Some(JsonValue::Array(a)) => {
                    proof {
                        lemma_model_of_array(*a);
                    }
                    let ghost models = json_models(a@);
                    let mut items: Vec<Item> = Vec::new();
                    let mut i: usize = 0;
                    assert(item_models(items@) =~= Seq::<ItemModel>::empty());
                    while i < a.len()
                        invariant
                            i <= a@.len(),
                            models == json_models(a@),
                            items_of(models, i as int) == Ok::<Seq<ItemModel>, DataFault>(
                                item_models(items@),
                            ),
                        decreases a@.len() - i,
                    {
                        match item_from_json(&a[i]) {
                            Ok(item) => {
                                let ghost before = items@;
                                items.push(item);
                                assert(item_models(items@) =~= item_models(before).push(
                                    item.deep_view(),
                                ));
                            },
                            Err(e) => {
                                proof {
                                    assert(items_of(models, i + 1) is Err);
                                    lemma_items_of_fail(models, i as int, a@.len() as int);
                                }
                                return Err(DataError::Item(i, e));
                            },
                        }
                        i += 1;
                    }
                    items
                },
                Some(_) => {
                    return Err(
                        DataError::Document(FieldError::WrongType(String::from_str("items"))),
                    );
                },
            };
            let reserved = names("schema", "items", None);
            let extra = members_except(m, &reserved);
            Ok(TaxonomyData { schema, items, extra })
        },
        _ => Err(DataError::Document(FieldError::NotAnObject)),
    }
}

fn text_array(v: &Vec<String>) -> (r: JsonValue)
    ensures
        json_model(r) == JsonModel::Array(
            Seq::new(v@.len(), |i: int| JsonModel::Text(texts(v@)[i])),
        ),
{
    let mut out: Vec<JsonValue> = Vec::new();
    let mut i: usize = 0;
    while i < v.len()
        invariant
            i <= v@.len(),
            out@.len() == i,
            forall|k: int| 0 <= k < i ==> json_model(#[trigger] out@[k]) == JsonModel::Text(v@[k]@),
        decreases v@.len() - i,
    {
        out.push(JsonValue::Text(v[i].clone()));
        i += 1;
    }
    proof {
        lemma_model_of_array(out);
        assert(json_models(out@) =~= Seq::new(v@.len(), |i: int| JsonModel::Text(texts(v@)[i])));
    }
    JsonValue::Array(out)
}

fn with_members(head: Vec<(String, JsonValue)>, tail: StrMap<JsonValue>) -> (r: JsonValue)
    ensures
        json_model(r) == JsonModel::Object((StrMap { entries: head }).deep_view() + tail.deep_view()),
{
    let ghost first = (StrMap { entries: head }).deep_view();
    let mut entries = head;
    let mut tail = tail;
    let ghost rest = tail.deep_view();
    entries.append(&mut tail.entries);
    let m = StrMap { entries };
    proof {
        lemma_model_of_object(m);
        assert(m.deep_view() =~= first + rest);
    }
    JsonValue::Object(m)
}

/// Writes an item as a document.
#[verifier::rlimit(50)]
pub fn item_to_json(item: &Item) -> (r: JsonValue)
    ensures
        json_model(r) == item_document(item.deep_view()),
{
    let reserved = names("name", "classical_path", Some("facets"));
    let extra = members_except(&item.extra, &reserved);
    let facets = crate::json::clone_members(&item.facets);
    let mut head: Vec<(String, JsonValue)> = Vec::new();
    head.push((String::from_str("name"), JsonValue::Text(item.name.clone())));
    head.push((String::from_str("classical_path"), text_array(&item.classical_path)));
    proof {
        lemma_model_of_object(facets);
    }
    head.push((String::from_str("facets"), JsonValue::Object(facets)));
    proof {
        let m = item.deep_view();
        assert((StrMap { entries: head }).deep_view() =~= seq![
            ("name"@, JsonModel::Text(m.name)),
            (
                "classical_path"@,
                JsonModel::Array(
                    Seq::new(m.classical_path.len(), |i: int| JsonModel::Text(m.classical_path[i])),
                ),
            ),
            ("facets"@, JsonModel::Object(m.facets)),
        ]);
    }
    with_members(head, extra)
}

/// Writes data as a data document.
#[verifier::rlimit(50)]
pub fn data_to_json(data: &TaxonomyData) -> (r: JsonValue)
    ensures
        json_model(r) == data_document(data.deep_view()),
{
    let reserved = names("schema", "items", None);
    let extra = members_except(&data.extra, &reserved);
    let mut documents: Vec<JsonValue> = Vec::new();
    let mut i: usize = 0;
    while i < data.items.len()
        invariant
            i <= data.items@.len(),
            documents@.len() == i,
            forall|k: int|
                0 <= k < i ==> json_model(#[trigger] documents@[k]) == item_document(
                    data.items@[k].deep_view(),
                ),
        decreases data.items@.len() - i,
    {
        documents.push(item_to_json(&data.items[i]));
        i += 1;
    }
    proof {
        lemma_model_of_array(documents);
        let m = data.deep_view();
        assert(json_models(documents@) =~= Seq::new(
            m.items.len(),
            |i: int| item_document(m.items[i]),
        ));
    }
    let mut head: Vec<(String, JsonValue)> = Vec::new();
    head.push((String::from_str("schema"), JsonValue::Text(data.schema.clone())));
    head.push((String::from_str("items"), JsonValue::Array(documents)));
    proof {
        let m = data.deep_view();
        assert((StrMap { entries: head }).deep_view() =~= seq![
            ("schema"@, JsonModel::Text(m.schema)),
            ("items"@, JsonModel::Array(Seq::new(m.items.len(), |i: int| item_document(m.items[i])))),
        ]);
    }
    with_members(head, extra)
}

/// Whether no member has a name among `reserved`.
pub open spec fn avoids(o: Members, reserved: Seq<Seq<char>>) -> bool {
    forall|i: int| 0 <= i < o.len() ==> !reserved.contains(#[trigger] o[i].0)
}

/// Members that avoid the reserved names are all kept.
pub proof fn lemma_other_members_all(o: Members, reserved: Seq<Seq<char>>)
    requires
        avoids(o, reserved),
    ensures
        other_members(o, reserved) == o,
    decreases o.len(),
{
    if o.len() > 0 {
        assert(!reserved.contains(o.last().0)) by {
            assert(o[o.len() - 1] == o.last());
        }
        assert(avoids(o.drop_last(), reserved)) by {
            assert forall|i: int| 0 <= i < o.drop_last().len() implies !reserved.contains(
                #[trigger] o.drop_last()[i].0,
            ) by {
                assert(o.drop_last()[i] == o[i]);
            }
        }
        lemma_other_members_all(o.drop_last(), reserved);
        assert(o.drop_last().push(o.last()) =~= o);
    }
}

/// The members kept from two runs are those kept from each.
pub proof fn lemma_other_members_concat(a: Members, b: Members, reserved: Seq<Seq<char>>)
    ensures
        other_members(a + b, reserved) == other_members(a, reserved) + other_members(b, reserved),
    decreases b.len(),
{
    if b.len() == 0 {
        assert(a + b =~= a);
        assert(other_members(a, reserved) + other_members(b, reserved) =~= other_members(
            a,
            reserved,
        ));
    } else {
        assert((a + b).drop_last() =~= a + b.drop_last());
        assert((a + b).last() == b.last());
        lemma_other_members_concat(a, b.drop_last(), reserved);
        if !reserved.contains(b.last().0) {
            assert((other_members(a, reserved) + other_members(b.drop_last(), reserved)).push(
                b.last(),
            ) =~= other_members(a, reserved) + other_members(b.drop_last(), reserved).push(
                b.last(),
            ));
        }
    }
}

/// Members all of whose names are reserved are all left out.
pub proof fn lemma_other_members_none(o: Members, reserved: Seq<Seq<char>>)
    requires
        forall|i: int| 0 <= i < o.len() ==> reserved.contains(#[trigger] o[i].0),
    ensures
        other_members(o, reserved) == Seq::<(Seq<char>, JsonModel)>::empty(),
    decreases o.len(),
{
    if o.len() > 0 {
        assert(reserved.contains(o[o.len() - 1].0));
        assert forall|i: int| 0 <= i < o.drop_last().len() implies reserved.contains(
            #[trigger] o.drop_last()[i].0,
        ) by {
            assert(o.drop_last()[i] == o[i]);
        }
        lemma_other_members_none(o.drop_last(), reserved);
    } else {
        assert(o =~= Seq::<(Seq<char>, JsonModel)>::empty());
    }
}

/// What is kept avoids the reserved names.
pub proof fn lemma_other_members_avoid(o: Members, reserved: Seq<Seq<char>>)
    ensures
        avoids(other_members(o, reserved), reserved),
    decreases o.len(),
{
    if o.len() > 0 {
        lemma_other_members_avoid(o.drop_last(), reserved);
    }
}

/// An array of strings denotes the texts of its strings.
pub proof fn lemma_texts_of_strings(path: Seq<Seq<char>>)
    ensures
        texts_of(Seq::new(path.len(), |i: int| JsonModel::Text(path[i]))) == Some(path),
    decreases path.len(),
{
    let a = Seq::new(path.len(), |i: int| JsonModel::Text(path[i]));
    if path.len() > 0 {
        let shorter = path.drop_last();
        lemma_texts_of_strings(shorter);
        assert(a.drop_last() =~= Seq::new(shorter.len(), |i: int| JsonModel::Text(shorter[i])));
        assert(shorter.push(path.last()) =~= path);
    } else {
        assert(path =~= Seq::<Seq<char>>::empty());
    }
}

proof fn lemma_field_names_differ()
    ensures
        "name"@ != "classical_path"@,
        "name"@ != "facets"@,
        "classical_path"@ != "facets"@,
        "schema"@ != "items"@,
{
    reveal_strlit("name");
    reveal_strlit("classical_path");
    reveal_strlit("facets");
    reveal_strlit("schema");
    reveal_strlit("items");
    assert("name"@.len() == 4);
    assert("classical_path"@.len() == 14);
    assert("facets"@.len() == 6);
    assert("schema"@.len() == 6);
    assert("items"@.len() == 5);
}

/// An item whose extra fields avoid the names of the item's own fields is
/// read back from its document as it was.
#[verifier::rlimit(50)]
pub proof fn lemma_item_round_trip(m: ItemModel)
    requires
        avoids(m.extra, item_fields()),
    ensures
        item_of(item_document(m)) == Ok::<ItemModel, FieldFault>(m),
{
    lemma_field_names_differ();
    let head: Members = seq![
        ("name"@, JsonModel::Text(m.name)),
        (
            "classical_path"@,
            JsonModel::Array(
                Seq::new(m.classical_path.len(), |i: int| JsonModel::Text(m.classical_path[i])),
            ),
        ),
        ("facets"@, JsonModel::Object(m.facets)),
    ];
    lemma_other_members_all(m.extra, item_fields());
    let o = head + m.extra;
    let keys = keys_of(o);
    assert(keys[0] == "name"@ && keys[1] == "classical_path"@ && keys[2] == "facets"@);
    crate::strmap::lemma_position(keys, "name"@, 0);
    crate::strmap::lemma_position(keys, "classical_path"@, 1);
    crate::strmap::lemma_position(keys, "facets"@, 2);
    lemma_texts_of_strings(m.classical_path);
    lemma_other_members_concat(head, m.extra, item_fields());
    assert forall|i: int| 0 <= i < head.len() implies item_fields().contains(
        #[trigger] head[i].0,
    ) by {
        assert(item_fields()[0] == "name"@ && item_fields()[1] == "classical_path"@
            && item_fields()[2] == "facets"@);
    }
    lemma_other_members_none(head, item_fields());
    assert(Seq::<(Seq<char>, JsonModel)>::empty() + m.extra =~= m.extra);
}

/// Whether the extra fields of the data and of every item avoid the names of
/// the fields that the model knows.
pub open spec fn extras_avoid_fields(m: DataModel) -> bool {
    avoids(m.extra, data_fields()) && forall|i: int|
        0 <= i < m.items.len() ==> avoids((#[trigger] m.items[i]).extra, item_fields())
}

proof fn lemma_items_round_trip(items: Seq<ItemModel>, upto: int)
    requires
        0 <= upto <= items.len(),
        forall|i: int| 0 <= i < items.len() ==> avoids((#[trigger] items[i]).extra, item_fields()),
    ensures
        items_of(Seq::new(items.len(), |i: int| item_document(items[i])), upto) == Ok::<
            Seq<ItemModel>,
            DataFault,
        >(items.take(upto)),
    decreases upto,
{
    if upto > 0 {
        lemma_items_round_trip(items, upto - 1);
        lemma_item_round_trip(items[upto - 1]);
        assert(items.take(upto - 1).push(items[upto - 1]) =~= items.take(upto));
    } else {
        assert(items.take(0) =~= Seq::<ItemModel>::empty());
    }
}

/// Data whose extra fields avoid the names of the known fields are read back
/// from their document as they were, extra fields included.
#[verifier::rlimit(50)]
pub proof fn lemma_data_round_trip(m: DataModel)
    requires
        extras_avoid_fields(m),
    ensures
        data_of(data_document(m)) == Ok::<DataModel, DataFault>(m),
{
    lemma_field_names_differ();
    let documents = Seq::new(m.items.len(), |i: int| item_document(m.items[i]));
    let head: Members = seq![
        ("schema"@, JsonModel::Text(m.schema)),
        ("items"@, JsonModel::Array(documents)),
    ];
    lemma_other_members_all(m.extra, data_fields());
    let o = head + m.extra;
    let keys = keys_of(o);
    assert(keys[0] == "schema"@ && keys[1] == "items"@);
    crate::strmap::lemma_position(keys, "schema"@, 0);
    crate::strmap::lemma_position(keys, "items"@, 1);
    lemma_items_round_trip(m.items, m.items.len() as int);
    assert(m.items.take(m.items.len() as int) =~= m.items);
    lemma_other_members_concat(head, m.extra, data_fields());
    assert forall|i: int| 0 <= i < head.len() implies data_fields().contains(
        #[trigger] head[i].0,
    ) by {
        assert(data_fields()[0] == "schema"@ && data_fields()[1] == "items"@);
    }
    lemma_other_members_none(head, data_fields());
    assert(Seq::<(Seq<char>, JsonModel)>::empty() + m.extra =~= m.extra);
}

/// Items that were read have extra fields that avoid the names of the known fields.
pub proof fn lemma_read_items_avoid(a: Seq<JsonModel>, upto: int, at: int)
    requires
        items_of(a, upto) is Ok,
        0 <= at < upto,
    ensures
        at < items_of(a, upto)->Ok_0.len(),
        avoids(items_of(a, upto)->Ok_0[at].extra, item_fields()),
    decreases upto,
{
    let before = items_of(a, upto - 1)->Ok_0;
    lemma_items_of_len(a, upto - 1);
    lemma_items_of_len(a, upto);
    if at < upto - 1 {
        lemma_read_items_avoid(a, upto - 1, at);
        assert(items_of(a, upto)->Ok_0[at] == before[at]);
    } else {
        let item = item_of(a[upto - 1])->Ok_0;
        assert(items_of(a, upto)->Ok_0[at] == item);
        lemma_other_members_avoid(a[upto - 1]->Object_0, item_fields());
    }
}

/// As many items are read as there are documents.
pub proof fn lemma_items_of_len(a: Seq<JsonModel>, upto: int)
    requires
        items_of(a, upto) is Ok,
        0 <= upto,
    ensures
        items_of(a, upto)->Ok_0.len() == upto,
    decreases upto,
{
    if upto > 0 {
        lemma_items_of_len(a, upto - 1);
    }
}

/// What is read from a document is written and read again as the same.
pub proof fn lemma_read_data_round_trips(j: JsonModel)
    requires
        data_of(j) is Ok,
    ensures
        data_of(data_document(data_of(j)->Ok_0)) == data_of(j),
{
    let m = data_of(j)->Ok_0;
    let o = j->Object_0;
    lemma_other_members_avoid(o, data_fields());
    let a = member(o, "items"@)->0->Array_0;
    lemma_items_of_len(a, a.len() as int);
    assert forall|i: int| 0 <= i < m.items.len() implies avoids(
        (#[trigger] m.items[i]).extra,
        item_fields(),
    ) by {
        lemma_read_items_avoid(a, a.len() as int, i);
    }
    lemma_data_round_trip(m);
}

impl Clone for TaxonomyData {
    fn clone(&self) -> (r: Self)
        ensures
            r.deep_view() == self.deep_view(),
    {
        TaxonomyData {
            schema: self.schema.clone(),
            items: crate::models::clone_items(&self.items),
            extra: crate::json::clone_members(&self.extra),
        }
    }
}

} // verus!
