//! JSON values: a tree of the library's own, read from text by `serde_json`.

use serde_json::Value;
use vstd::prelude::*;

use crate::ieee::{double_of, double_of_signed, single_of, single_of_signed, Double, Single};
use crate::sort::views;
use crate::text::{opt_str, opt_text, owned, same, text_le, texts};

verus! {

/// A JSON number as it was written: a whole number, or a fraction.
#[derive(Clone, Copy, Debug, PartialEq, Eq, Structural)]
pub enum JsonNumber {
    Unsigned(u64),
    Signed(i64),
    Fraction(Double),
}

/// A JSON value. The fields of an object keep an order.
#[derive(Debug)]
pub enum Json {
    Null,
    Bool(bool),
    Number(JsonNumber),
    Text(String),
    Array(Vec<Json>),
    Object(Vec<(String, Json)>),
}

/// What a JSON value is.
pub ghost enum JsonView {
    Null,
    Bool(bool),
    Number(JsonNumber),
    Text(Seq<char>),
    Array(Seq<JsonView>),
    Object(Seq<(Seq<char>, JsonView)>),
}

/// What a JSON value is.
pub open spec fn json_view(j: Json) -> JsonView
    decreases j,
{
    match j {
        Json::Null => JsonView::Null,
        Json::Bool(b) => JsonView::Bool(b),
        Json::Number(n) => JsonView::Number(n),
        Json::Text(s) => JsonView::Text(s@),
        Json::Array(items) => JsonView::Array(
            Seq::new(
                items@.len(),
                |i: int|
                    if 0 <= i < items@.len() {
                        json_view(items@[i])
                    } else {
                        JsonView::Null
                    },
            ),
        ),
        Json::Object(fields) => JsonView::Object(
            Seq::new(
                fields@.len(),
                |i: int|
                    if 0 <= i < fields@.len() {
                        (fields@[i].0@, json_view(fields@[i].1))
                    } else {
                        (Seq::empty(), JsonView::Null)
                    },
            ),
        ),
    }
}

impl View for Json {
    type V = JsonView;

    open spec fn view(&self) -> JsonView {
        json_view(*self)
    }
}

/// What some JSON values are.
pub open spec fn json_views(items: Seq<Json>) -> Seq<JsonView> {
    items.map_values(|j: Json| j@)
}

/// What some named JSON values are.
pub open spec fn field_views(fields: Seq<(String, Json)>) -> Seq<(Seq<char>, JsonView)> {
    fields.map_values(|f: (String, Json)| (f.0@, f.1@))
}

/// What an optional JSON value is.
pub open spec fn opt_json(j: Option<Json>) -> Option<JsonView> {
    match j {
        Some(v) => Some(v@),
        None => None,
    }
}

proof fn lemma_array_view(items: Vec<Json>)
    ensures
        Json::Array(items)@ == JsonView::Array(json_views(items@)),
{
    let j = Json::Array(items);
    assert(json_view(j)->Array_0 =~= json_views(items@));
}

proof fn lemma_object_view(fields: Vec<(String, Json)>)
    ensures
        Json::Object(fields)@ == JsonView::Object(field_views(fields@)),
{
    let j = Json::Object(fields);
    assert(json_view(j)->Object_0 =~= field_views(fields@));
}

// ---------------------------------------------------------------- reading
/// The first field of some name.
pub open spec fn find_field(fields: Seq<(Seq<char>, JsonView)>, key: Seq<char>) -> Option<JsonView>
    decreases fields.len(),
{
    if fields.len() == 0 {
        None
    } else if fields[0].0 == key {
        Some(fields[0].1)
    } else {
        find_field(fields.drop_first(), key)
    }
}

impl JsonView {
    /// The field of some name, in an object that has it.
    pub open spec fn get(self, key: Seq<char>) -> Option<JsonView> {
        match self {
            JsonView::Object(fields) => find_field(fields, key),
            _ => None,
        }
    }

    /// The text that a string holds.
    pub open spec fn as_text(self) -> Option<Seq<char>> {
        match self {
            JsonView::Text(s) => Some(s),
            _ => None,
        }
    }

    /// The whole number, not negative, that a number is.
    pub open spec fn as_unsigned(self) -> Option<u64> {
        match self {
            JsonView::Number(JsonNumber::Unsigned(n)) => Some(n),
            _ => None,
        }
    }

    /// The fraction that a number is or is nearest to.
    pub open spec fn as_double(self) -> Option<Double> {
        match self {
            JsonView::Number(JsonNumber::Unsigned(n)) => Some(double_of(n)),
            JsonView::Number(JsonNumber::Signed(n)) => Some(double_of_signed(n)),
            JsonView::Number(JsonNumber::Fraction(d)) => Some(d),
            _ => None,
        }
    }

    /// The 32-bit fraction that a number is or is nearest to.
    pub open spec fn as_single(self) -> Option<Single> {
        match self {
            JsonView::Number(JsonNumber::Unsigned(n)) => Some(single_of(n)),
            JsonView::Number(JsonNumber::Signed(n)) => Some(single_of_signed(n)),
            JsonView::Number(JsonNumber::Fraction(d)) => Some(d.narrowed()),
            _ => None,
        }
    }

    /// The truth value that a value is.
    pub open spec fn as_flag(self) -> Option<bool> {
        match self {
            JsonView::Bool(b) => Some(b),
            _ => None,
        }
    }

    /// The truth value in the field of some name.
    pub open spec fn flag_at(self, key: Seq<char>) -> Option<bool> {
        match self.get(key) {
            Some(v) => v.as_flag(),
            None => None,
        }
    }

    /// The items of an array.
    pub open spec fn as_items(self) -> Option<Seq<JsonView>> {
        match self {
            JsonView::Array(items) => Some(items),
            _ => None,
        }
    }

    /// The text in the field of some name.
    pub open spec fn text_at(self, key: Seq<char>) -> Option<Seq<char>> {
        match self.get(key) {
            Some(v) => v.as_text(),
            None => None,
        }
    }

    /// The whole number in the field of some name.
    pub open spec fn unsigned_at(self, key: Seq<char>) -> Option<u64> {
        match self.get(key) {
            Some(v) => v.as_unsigned(),
            None => None,
        }
    }

    /// The fraction in the field of some name.
    pub open spec fn double_at(self, key: Seq<char>) -> Option<Double> {
        match self.get(key) {
            Some(v) => v.as_double(),
            None => None,
        }
    }

    /// The items in the field of some name.
    pub open spec fn items_at(self, key: Seq<char>) -> Option<Seq<JsonView>> {
        match self.get(key) {
            Some(v) => v.as_items(),
            None => None,
        }
    }
}

proof fn lemma_find_skips(fields: Seq<(Seq<char>, JsonView)>, key: Seq<char>, k: int)
    requires
        0 <= k <= fields.len(),
        forall|i: int| 0 <= i < k ==> (#[trigger] fields[i]).0 != key,
    ensures
        find_field(fields, key) == find_field(fields.skip(k), key),
    decreases k,
{
    if k == 0 {
        assert(fields.skip(0) =~= fields);
    } else {
        let rest = fields.drop_first();
        assert forall|i: int| 0 <= i < k - 1 implies (#[trigger] rest[i]).0 != key by {
            assert(rest[i] == fields[i + 1]);
        }
        assert(fields[0].0 != key);
        lemma_find_skips(rest, key, k - 1);
        assert(rest.skip(k - 1) =~= fields.skip(k));
    }
}

/// A field is found where no field before it has its name. This is for objects
/// written out with a few fields.
pub proof fn field_is_found(fields: Seq<(Seq<char>, JsonView)>, k: int)
    requires
        0 <= k < fields.len(),
        k <= 22,
        k > 0 ==> fields[0].0 != fields[k].0,
        k > 1 ==> fields[1].0 != fields[k].0,
        k > 2 ==> fields[2].0 != fields[k].0,
        k > 3 ==> fields[3].0 != fields[k].0,
        k > 4 ==> fields[4].0 != fields[k].0,
        k > 5 ==> fields[5].0 != fields[k].0,
        k > 6 ==> fields[6].0 != fields[k].0,
        k > 7 ==> fields[7].0 != fields[k].0,
        k > 8 ==> fields[8].0 != fields[k].0,
        k > 9 ==> fields[9].0 != fields[k].0,
        k > 10 ==> fields[10].0 != fields[k].0,
        k > 11 ==> fields[11].0 != fields[k].0,
        k > 12 ==> fields[12].0 != fields[k].0,
        k > 13 ==> fields[13].0 != fields[k].0,
        k > 14 ==> fields[14].0 != fields[k].0,
        k > 15 ==> fields[15].0 != fields[k].0,
        k > 16 ==> fields[16].0 != fields[k].0,
        k > 17 ==> fields[17].0 != fields[k].0,
        k > 18 ==> fields[18].0 != fields[k].0,
        k > 19 ==> fields[19].0 != fields[k].0,
        k > 20 ==> fields[20].0 != fields[k].0,
        k > 21 ==> fields[21].0 != fields[k].0,
    ensures
        find_field(fields, fields[k].0) == Some(fields[k].1),
{
    lemma_find_skips(fields, fields[k].0, k);
    assert(fields.skip(k)[0] == fields[k]);
}

/// No field is found under a name that none has. This is for objects written
/// out with a few fields.
pub proof fn field_is_missed(fields: Seq<(Seq<char>, JsonView)>, key: Seq<char>)
    requires
        fields.len() <= 16,
        fields.len() > 0 ==> fields[0].0 != key,
        fields.len() > 1 ==> fields[1].0 != key,
        fields.len() > 2 ==> fields[2].0 != key,
        fields.len() > 3 ==> fields[3].0 != key,
        fields.len() > 4 ==> fields[4].0 != key,
        fields.len() > 5 ==> fields[5].0 != key,
        fields.len() > 6 ==> fields[6].0 != key,
        fields.len() > 7 ==> fields[7].0 != key,
        fields.len() > 8 ==> fields[8].0 != key,
        fields.len() > 9 ==> fields[9].0 != key,
        fields.len() > 10 ==> fields[10].0 != key,
        fields.len() > 11 ==> fields[11].0 != key,
        fields.len() > 12 ==> fields[12].0 != key,
        fields.len() > 13 ==> fields[13].0 != key,
        fields.len() > 14 ==> fields[14].0 != key,
        fields.len() > 15 ==> fields[15].0 != key,
    ensures
        find_field(fields, key) is None,
{
    lemma_find_skips(fields, key, fields.len() as int);
}

/// Where the first field of some name stands.
fn find_index(fields: &Vec<(String, Json)>, key: &str) -> (r: Option<usize>)
    ensures
        match r {
            Some(i) => i < fields@.len() && fields@[i as int].0@ == key@ && find_field(
                field_views(fields@),
                key@,
            ) == Some(fields@[i as int].1@) && (forall|k: int|
                0 <= k < i ==> (#[trigger] fields@[k]).0@ != key@),
            None => find_field(field_views(fields@), key@) is None && (forall|k: int|
                0 <= k < fields@.len() ==> (#[trigger] fields@[k]).0@ != key@),
        },
{
    let ghost all = field_views(fields@);
    let mut i: usize = 0;
    while i < fields.len()
        invariant
            i <= fields@.len(),
            all == field_views(fields@),
            forall|k: int| 0 <= k < i ==> (#[trigger] fields@[k]).0@ != key@,
        decreases fields@.len() - i,
    {
        if same(fields[i].0.as_str(), key) {
            proof {
                assert forall|k: int| 0 <= k < i implies (#[trigger] all[k]).0 != key@ by {
                    assert(fields@[k].0@ != key@);
                }
                lemma_find_skips(all, key@, i as int);
                assert(all.skip(i as int)[0] == all[i as int]);
            }
            return Some(i);
        }
        i += 1;
    }
    proof {
        assert forall|k: int| 0 <= k < i implies (#[trigger] all[k]).0 != key@ by {
            assert(fields@[k].0@ != key@);
        }
        lemma_find_skips(all, key@, i as int);
    }
    None
}

impl Json {
    /// The field of some name, in an object that has it.
    pub fn get(&self, key: &str) -> (r: Option<&Json>)
        ensures
            match r {
                Some(v) => self@.get(key@) == Some(v@),
                None => self@.get(key@) is None,
            },
    {
        match self {
            Json::Object(fields) => {
                proof {
                    lemma_object_view(*fields);
                }
                match find_index(fields, key) {
                    Some(i) => Some(&fields[i].1),
                    None => None,
                }
            },
            _ => None,
        }
    }

    /// The text that a string holds.
    pub fn as_str(&self) -> (r: Option<&str>)
        ensures
            opt_str(r) == self@.as_text(),
    {
        match self {
            Json::Text(s) => Some(s.as_str()),
            _ => None,
        }
    }

    /// The whole number, not negative, that a number is.
    pub fn as_u64(&self) -> (r: Option<u64>)
        ensures
            r == self@.as_unsigned(),
    {
        match self {
            Json::Number(JsonNumber::Unsigned(n)) => Some(*n),
            _ => None,
        }
    }

    /// The fraction that a number is or is nearest to.
    pub fn as_double(&self) -> (r: Option<Double>)
        ensures
            r == self@.as_double(),
    {
        match self {
            Json::Number(JsonNumber::Unsigned(n)) => Some(Double::of_unsigned(*n)),
            Json::Number(JsonNumber::Signed(n)) => Some(Double::of_signed(*n)),
            Json::Number(JsonNumber::Fraction(d)) => Some(*d),
            _ => None,
        }
    }

    /// The 32-bit fraction that a number is or is nearest to.
    pub fn as_single(&self) -> (r: Option<Single>)
        ensures
            r == self@.as_single(),
    {
        match self {
            Json::Number(JsonNumber::Unsigned(n)) => Some(Single::of_unsigned(*n)),
            Json::Number(JsonNumber::Signed(n)) => Some(Single::of_signed(*n)),
            Json::Number(JsonNumber::Fraction(d)) => Some(d.narrow()),
            _ => None,
        }
    }

    /// The truth value that a value is.
    pub fn as_bool(&self) -> (r: Option<bool>)
        ensures
            r == self@.as_flag(),
    {
        match self {
            Json::Bool(b) => Some(*b),
            _ => None,
        }
    }

    /// The truth value in the field of some name.
    pub fn flag_at(&self, key: &str) -> (r: Option<bool>)
        ensures
            r == self@.flag_at(key@),
    {
        match self.get(key) {
            Some(v) => v.as_bool(),
            None => None,
        }
    }

    /// The items of an array.
    pub fn as_array(&self) -> (r: Option<&Vec<Json>>)
        ensures
            match r {
                Some(items) => self@.as_items() == Some(json_views(items@)),
                None => self@.as_items() is None,
            },
    {
        match self {
            Json::Array(items) => {
                proof {
                    lemma_array_view(*items);
                }
                Some(items)
            },
            _ => None,
        }
    }

    /// The text in the field of some name.
    pub fn text_at(&self, key: &str) -> (r: Option<&str>)
        ensures
            opt_str(r) == self@.text_at(key@),
    {
        match self.get(key) {
            Some(v) => v.as_str(),
            None => None,
        }
    }

    /// The whole number in the field of some name.
    pub fn unsigned_at(&self, key: &str) -> (r: Option<u64>)
        ensures
            r == self@.unsigned_at(key@),
    {
        match self.get(key) {
            Some(v) => v.as_u64(),
            None => None,
        }
    }

    /// The fraction in the field of some name.
    pub fn double_at(&self, key: &str) -> (r: Option<Double>)
        ensures
            r == self@.double_at(key@),
    {
        match self.get(key) {
            Some(v) => v.as_double(),
            None => None,
        }
    }

    /// The items in the field of some name.
    pub fn items_at(&self, key: &str) -> (r: Option<&Vec<Json>>)
        ensures
            match r {
                Some(items) => self@.items_at(key@) == Some(json_views(items@)),
                None => self@.items_at(key@) is None,
            },
    {
        match self.get(key) {
            Some(v) => v.as_array(),
            None => None,
        }
    }

    /// The fields of an object.
    pub fn fields(&self) -> (r: Option<&Vec<(String, Json)>>)
        ensures
            match r {
                Some(fields) => self@ == JsonView::Object(field_views(fields@)),
                None => !(self@ is Object),
            },
    {
        match self {
            Json::Object(fields) => {
                proof {
                    lemma_object_view(*fields);
                }
                Some(fields)
            },
            _ => None,
        }
    }

    /// The same value once more.
    pub fn copy(&self) -> (r: Json)
        ensures
            r@ == self@,
        decreases self,
    {
        match self {
            Json::Null => Json::Null,
            Json::Bool(b) => Json::Bool(*b),
            Json::Number(n) => Json::Number(*n),
            Json::Text(s) => Json::Text(s.clone()),
            Json::Array(items) => {
                let mut out: Vec<Json> = Vec::new();
                let mut i: usize = 0;
                while i < items.len()
                    invariant
                        i <= items@.len(),
                        decreases_to!(self => items),
                        json_views(out@) == json_views(items@).take(i as int),
                    decreases items@.len() - i,
                {
                    let ghost before = json_views(out@);
                    out.push(items[i].copy());
                    i += 1;
                    assert(json_views(out@) =~= before.push(items@[i - 1]@));
                    assert(json_views(items@).take(i as int) =~= before.push(items@[i - 1]@));
                }
                proof {
                    assert(json_views(items@).take(i as int) =~= json_views(items@));
                    lemma_array_view(*items);
                    lemma_array_view(out);
                }
                Json::Array(out)
            },
            Json::Object(fields) => {
                let mut out: Vec<(String, Json)> = Vec::new();
                let mut i: usize = 0;
                while i < fields.len()
                    invariant
                        i <= fields@.len(),
                        decreases_to!(self => fields),
                        field_views(out@) == field_views(fields@).take(i as int),
                    decreases fields@.len() - i,
                {
                    let ghost before = field_views(out@);
                    let entry: &(String, Json) = &fields[i];
                    out.push((entry.0.clone(), entry.1.copy()));
                    i += 1;
                    assert(field_views(out@) =~= before.push((entry.0@, entry.1@)));
                    assert(field_views(fields@).take(i as int) =~= before.push(
                        (entry.0@, entry.1@),
                    ));
                }
                proof {
                    assert(field_views(fields@).take(i as int) =~= field_views(fields@));
                    lemma_object_view(*fields);
                    lemma_object_view(out);
                }
                Json::Object(out)
            },
        }
    }
}

// ---------------------------------------------------------------- building
/// A whole number as JSON.
pub open spec fn number_view(n: u64) -> JsonView {
    JsonView::Number(JsonNumber::Unsigned(n))
}

/// A fraction as JSON: `null` where it is no finite number.
pub open spec fn fraction_view(d: Double) -> JsonView {
    if d.finite() {
        JsonView::Number(JsonNumber::Fraction(d))
    } else {
        JsonView::Null
    }
}

/// A text, or `null`.
pub open spec fn text_or_null(s: Option<Seq<char>>) -> JsonView {
    match s {
        Some(t) => JsonView::Text(t),
        None => JsonView::Null,
    }
}

/// A whole number, or `null`.
pub open spec fn number_or_null(n: Option<u64>) -> JsonView {
    match n {
        Some(v) => number_view(v),
        None => JsonView::Null,
    }
}

/// A value, or `null`.
pub open spec fn value_or_null(v: Option<JsonView>) -> JsonView {
    match v {
        Some(j) => j,
        None => JsonView::Null,
    }
}

/// Strings as JSON.
pub open spec fn text_views(s: Seq<Seq<char>>) -> Seq<JsonView> {
    s.map_values(|t: Seq<char>| JsonView::Text(t))
}

impl Json {
    /// A string.
    pub fn text(s: &str) -> (r: Json)
        ensures
            r@ == JsonView::Text(s@),
    {
        Json::Text(owned(s))
    }

    /// A whole number.
    pub fn number(n: u64) -> (r: Json)
        ensures
            r@ == number_view(n),
    {
        Json::Number(JsonNumber::Unsigned(n))
    }

    /// A fraction, or `null` where it is no finite number.
    pub fn fraction(d: Double) -> (r: Json)
        ensures
            r@ == fraction_view(d),
    {
        if d.is_finite() {
            Json::Number(JsonNumber::Fraction(d))
        } else {
            Json::Null
        }
    }

    /// A 32-bit fraction, or `null` where it is no finite number.
    pub fn single(s: Single) -> (r: Json)
        ensures
            r@ == fraction_view(s.widened()),
    {
        Json::fraction(s.widen())
    }

    /// A string, or `null`.
    pub fn text_or_null(s: &Option<String>) -> (r: Json)
        ensures
            r@ == text_or_null(opt_text(*s)),
    {
        match s {
            Some(t) => Json::text(t.as_str()),
            None => Json::Null,
        }
    }

    /// A whole number, or `null`.
    pub fn number_or_null(n: Option<u64>) -> (r: Json)
        ensures
            r@ == number_or_null(n),
    {
        match n {
            Some(v) => Json::number(v),
            None => Json::Null,
        }
    }

    /// A list.
    pub fn list(items: Vec<Json>) -> (r: Json)
        ensures
            r@ == JsonView::Array(json_views(items@)),
    {
        proof {
            lemma_array_view(items);
        }
        Json::Array(items)
    }

    /// A list of strings.
    pub fn text_list(items: &Vec<String>) -> (r: Json)
        ensures
            r@ == JsonView::Array(text_views(texts(items@))),
    {
        let mut out: Vec<Json> = Vec::new();
        let mut i: usize = 0;
        while i < items.len()
            invariant
                i <= items@.len(),
                json_views(out@) == text_views(texts(items@)).take(i as int),
            decreases items@.len() - i,
        {
            let ghost before = json_views(out@);
            out.push(Json::text(items[i].as_str()));
            i += 1;
            assert(json_views(out@) =~= before.push(JsonView::Text(items@[i - 1]@)));
            assert(text_views(texts(items@)).take(i as int) =~= before.push(
                JsonView::Text(items@[i - 1]@),
            ));
        }
        assert(text_views(texts(items@)).take(i as int) =~= text_views(texts(items@)));
        Json::list(out)
    }
}

/// An object under construction.
pub struct Fields {
    pub fields: Vec<(String, Json)>,
}

impl View for Fields {
    type V = Seq<(Seq<char>, JsonView)>;

    open spec fn view(&self) -> Seq<(Seq<char>, JsonView)> {
        field_views(self.fields@)
    }
}

/// The fields with one of some name set: in its place where it is there
/// already, at the end where it is not.
pub open spec fn with_field(
    fields: Seq<(Seq<char>, JsonView)>,
    key: Seq<char>,
    value: JsonView,
) -> Seq<(Seq<char>, JsonView)>
    decreases fields.len(),
{
    if fields.len() == 0 {
        seq![(key, value)]
    } else if fields[0].0 == key {
        fields.update(0, (key, value))
    } else {
        seq![fields[0]] + with_field(fields.drop_first(), key, value)
    }
}

/// The fields with one of some name added where there is none.
pub open spec fn with_default(
    fields: Seq<(Seq<char>, JsonView)>,
    key: Seq<char>,
    value: JsonView,
) -> Seq<(Seq<char>, JsonView)> {
    if find_field(fields, key) is Some {
        fields
    } else {
        fields.push((key, value))
    }
}

/// A field that is added where there is none is found under its name, and no
/// other field is found otherwise than before.
pub proof fn defaults_fill_gaps_only(
    fields: Seq<(Seq<char>, JsonView)>,
    key: Seq<char>,
    value: JsonView,
    name: Seq<char>,
)
    ensures
        find_field(with_default(fields, key, value), name) == (if name == key && find_field(
            fields,
            key,
        ) is None {
            Some(value)
        } else {
            find_field(fields, name)
        }),
{
    if find_field(fields, key) is None {
        lemma_find_behind(fields, key, value, name);
    }
}

proof fn lemma_find_behind(
    fields: Seq<(Seq<char>, JsonView)>,
    key: Seq<char>,
    value: JsonView,
    name: Seq<char>,
)
    ensures
        find_field(fields.push((key, value)), name) == match find_field(fields, name) {
            Some(found) => Some(found),
            None => if name == key {
                Some(value)
            } else {
                None
            },
        },
    decreases fields.len(),
{
    let longer = fields.push((key, value));
    if fields.len() == 0 {
        assert(longer.drop_first() =~= Seq::empty());
        assert(find_field(longer.drop_first(), name) is None);
    } else {
        assert(longer[0] == fields[0]);
        assert(longer.drop_first() =~= fields.drop_first().push((key, value)));
        lemma_find_behind(fields.drop_first(), key, value, name);
    }
}

proof fn lemma_with_field(
    fields: Seq<(Seq<char>, JsonView)>,
    key: Seq<char>,
    value: JsonView,
    k: int,
)
    requires
        0 <= k <= fields.len(),
        forall|i: int| 0 <= i < k ==> (#[trigger] fields[i]).0 != key,
        k < fields.len() ==> fields[k].0 == key,
    ensures
        with_field(fields, key, value) == if k < fields.len() {
            fields.update(k, (key, value))
        } else {
            fields.push((key, value))
        },
    decreases fields.len(),
{
    if fields.len() == 0 {
        assert(fields.push((key, value)) =~= seq![(key, value)]);
    } else if k > 0 {
        let rest = fields.drop_first();
        assert forall|i: int| 0 <= i < k - 1 implies (#[trigger] rest[i]).0 != key by {
            assert(rest[i] == fields[i + 1]);
        }
        assert(fields[0].0 != key);
        lemma_with_field(rest, key, value, k - 1);
        if k < fields.len() {
            assert(seq![fields[0]] + rest.update(k - 1, (key, value)) =~= fields.update(
                k,
                (key, value),
            ));
        } else {
            assert(seq![fields[0]] + rest.push((key, value)) =~= fields.push((key, value)));
        }
    }
}

impl Fields {
    /// No field yet.
    pub fn new() -> (r: Fields)
        ensures
            r@ == Seq::<(Seq<char>, JsonView)>::empty(),
    {
        let r = Fields { fields: Vec::new() };
        assert(r@ =~= Seq::<(Seq<char>, JsonView)>::empty());
        r
    }

    /// Adds one field at the end.
    pub fn put(&mut self, key: &str, value: Json)
        ensures
            final(self)@ == old(self)@.push((key@, value@)),
    {
        let ghost before = self@;
        self.fields.push((owned(key), value));
        assert(self@ =~= before.push((key@, value@)));
    }

    /// Sets the field of some name.
    pub fn set(&mut self, key: &str, value: Json)
        ensures
            final(self)@ == with_field(old(self)@, key@, value@),
    {
        let ghost before = self@;
        match find_index(&self.fields, key) {
            Some(i) => {
                proof {
                    assert forall|k: int| 0 <= k < i implies (#[trigger] before[k]).0 != key@ by {
                        assert(self.fields@[k].0@ != key@);
                    }
                    lemma_with_field(before, key@, value@, i as int);
                }
                let entry: (String, Json) = (owned(key), value);
                self.fields.set(i, entry);
                assert(self@ =~= before.update(i as int, (key@, value@)));
            },
            None => {
                proof {
                    assert forall|k: int| 0 <= k < before.len() implies (#[trigger] before[k]).0
                        != key@ by {
                        assert(self.fields@[k].0@ != key@);
                    }
                    lemma_with_field(before, key@, value@, before.len() as int);
                }
                self.put(key, value);
            },
        }
    }

    /// Adds the field of some name where there is none.
    pub fn set_default(&mut self, key: &str, value: Json)
        ensures
            final(self)@ == with_default(old(self)@, key@, value@),
    {
        match find_index(&self.fields, key) {
            Some(_) => {},
            None => {
                self.put(key, value);
            },
        }
    }

    /// The finished object.
    pub fn object(self) -> (r: Json)
        ensures
            r@ == JsonView::Object(self@),
    {
        proof {
            lemma_object_view(self.fields);
        }
        Json::Object(self.fields)
    }
}

impl Json {
    /// The fields of an object.
    pub fn into_fields(self) -> (r: Result<Fields, Json>)
        ensures
            match r {
                Ok(fields) => self@ == JsonView::Object(fields@),
                Err(other) => other == self && !(self@ is Object),
            },
    {
        match self {
            Json::Object(fields) => {
                proof {
                    lemma_object_view(fields);
                }
                Ok(Fields { fields })
            },
            other => Err(other),
        }
    }
}

/// A type whose values can be told as JSON.
pub trait ToJson: View + Sized {
    /// A value as JSON.
    spec fn json_of(v: Self::V) -> JsonView;

    /// A value as JSON.
    fn to_json(&self) -> (r: Json)
        ensures
            r@ == Self::json_of(self@),
    ;
}

/// Values as JSON.
pub open spec fn jsons_of<T: ToJson>(s: Seq<T::V>) -> Seq<JsonView> {
    s.map_values(|v: T::V| T::json_of(v))
}

/// A list of values as JSON.
pub fn list_of<T: ToJson>(items: &Vec<T>) -> (r: Json)
    ensures
        r@ == JsonView::Array(jsons_of::<T>(views(items@))),
{
    let ghost all = jsons_of::<T>(views(items@));
    let mut out: Vec<Json> = Vec::new();
    let mut i: usize = 0;
    while i < items.len()
        invariant
            i <= items@.len(),
            all == jsons_of::<T>(views(items@)),
            json_views(out@) == all.take(i as int),
        decreases items@.len() - i,
    {
        let ghost before = json_views(out@);
        out.push(items[i].to_json());
        i += 1;
        assert(json_views(out@) =~= before.push(T::json_of(items@[i - 1]@)));
        assert(all.take(i as int) =~= before.push(T::json_of(items@[i - 1]@)));
    }
    assert(all.take(i as int) =~= all);
    Json::list(out)
}

// ---------------------------------------------------------------- parsing

/// A value of `serde_json`; what it holds is named by `value_view`.
#[verifier::external_type_specification]
#[verifier::external_body]
pub struct ExJsonValue(serde_json::Value);

/// The error of `serde_json`, of which nothing is claimed.
#[verifier::external_type_specification]
#[verifier::external_body]
pub struct ExJsonError(serde_json::Error);

/// What a `serde_json::Value` holds.
pub uninterp spec fn value_view(value: serde_json::Value) -> JsonView;

/// What `serde_json::from_str` reads from a text, where it reads a value.
pub uninterp spec fn read_json(raw: Seq<char>) -> Option<JsonView>;

/// The outermost layer of a `serde_json::Value`.
enum Layer {
    Null,
    Bool(bool),
    Number(JsonNumber),
    Text(String),
    Array(Vec<Value>),
    Object(Vec<(String, Value)>),
}

/// What a value with some outermost layer holds.
spec fn layer_view(layer: Layer) -> JsonView {
    match layer {
        Layer::Null => JsonView::Null,
        Layer::Bool(b) => JsonView::Bool(b),
        Layer::Number(n) => JsonView::Number(n),
        Layer::Text(s) => JsonView::Text(s@),
        Layer::Array(items) => JsonView::Array(items@.map_values(|v: Value| value_view(v))),
        Layer::Object(fields) => JsonView::Object(
            fields@.map_values(|f: (String, Value)| (f.0@, value_view(f.1))),
        ),
    }
}

/// Takes a `serde_json::Value` apart by the enum's variants, and its number by
/// `Number::as_u64`, `as_i64` and `as_f64`. The contract claims that the layer
/// holds what the value holds.
#[verifier::external_body]
fn open_value(value: Value) -> (r: Layer)
    ensures
        layer_view(r) == value_view(value),
{
    match value {
        Value::Null => Layer::Null,
        Value::Bool(b) => Layer::Bool(b),
        Value::Number(n) => Layer::Number(match (n.as_u64(), n.as_i64()) {
            (Some(u), _) => JsonNumber::Unsigned(u),
            (None, Some(i)) => JsonNumber::Signed(i),
            _ => JsonNumber::Fraction(Double { bits: n.as_f64().map_or(0, |v| v.to_bits()) })
        }),
        Value::String(s) => Layer::Text(s),
        Value::Array(items) => Layer::Array(items),
        Value::Object(fields) => Layer::Object(fields.into_iter().collect())
    }
}

/// The library's own tree for a `serde_json::Value`.
fn from_value(value: Value) -> (r: Json)
    ensures
        r@ == value_view(value),
    decreases value_view(value),
{
    let ghost whole = value_view(value);
    match open_value(value) {
        Layer::Null => Json::Null,
        Layer::Bool(b) => Json::Bool(b),
        Layer::Number(n) => Json::Number(n),
        Layer::Text(s) => Json::Text(s),
        Layer::Array(items) => {
            let ghost held = whole->Array_0;
            let mut out: Vec<Json> = Vec::new();
            for item in iter: items
                invariant
                    whole == value_view(value),
                    whole == JsonView::Array(held),
                    held.len() == iter.seq().len(),
                    forall|i: int|
                        0 <= i < held.len() ==> value_view(#[trigger] iter.seq()[i]) == held[i],
                    json_views(out@) == held.take(iter.index()),
            {
                let ghost at = iter.index();
                let ghost before = json_views(out@);
                assert(value_view(item) == held[at]);
                assert(decreases_to!(whole => whole->Array_0[at]));
                out.push(from_value(item));
                assert(json_views(out@) =~= before.push(held[at]));
                assert(held.take(at + 1) =~= held.take(at).push(held[at]));
            }
            proof {
                lemma_array_view(out);
                assert(held.take(held.len() as int) =~= held);
            }
            Json::Array(out)
        },
        Layer::Object(fields) => {
            let ghost held = whole->Object_0;
            let mut out: Vec<(String, Json)> = Vec::new();
            for field in iter: fields
                invariant
                    whole == value_view(value),
                    whole == JsonView::Object(held),
                    held.len() == iter.seq().len(),
                    forall|i: int|
                        0 <= i < held.len() ==> (
                        (#[trigger] iter.seq()[i]).0@,
                        value_view(iter.seq()[i].1),
                    ) == held[i],
                    field_views(out@) == held.take(iter.index()),
            {
                let ghost at = iter.index();
                let ghost before = field_views(out@);
                assert((field.0@, value_view(field.1)) == held[at]);
                assert(decreases_to!(whole => whole->Object_0[at].1));
                let (name, inner) = field;
                out.push((name, from_value(inner)));
                assert(field_views(out@) =~= before.push(held[at]));
                assert(held.take(at + 1) =~= held.take(at).push(held[at]));
            }
            proof {
                lemma_object_view(out);
                assert(held.take(held.len() as int) =~= held);
            }
            Json::Object(out)
        },
    }
}

/// `serde_json::from_str` into a `serde_json::Value`: a function of the text
/// alone, which fails on a text that is no JSON value.
#[verifier::external_body]
fn value_from_str(raw: &str) -> (r: Result<serde_json::Value, serde_json::Error>)
    ensures
        match r {
            Ok(v) => read_json(raw@) == Some(value_view(v)),
            Err(_) => read_json(raw@) is None,
        },
{
    serde_json::from_str(raw)
}

/// How a JSON value is written, without any space that is not in a text.
pub uninterp spec fn written_json(value: JsonView) -> Seq<char>;

/// `to_string` of a `serde_json::Value`, its compact form: a function of what
/// the value holds alone.
#[verifier::external_body]
pub(crate) fn value_text(value: &serde_json::Value) -> (r: String)
    ensures
        r@ == written_json(value_view(*value)),
{
    value.to_string()
}

/// `serde_json::Value::String`: the value that is a text.
#[verifier::external_body]
pub(crate) fn text_value(text: &str) -> (r: serde_json::Value)
    ensures
        value_view(r) == JsonView::Text(text@),
{
    Value::String(text.to_string())
}

/// `serde_json::Value::from` on a `u64`: the value that is a whole number.
#[verifier::external_body]
pub(crate) fn number_value(n: u64) -> (r: serde_json::Value)
    ensures
        value_view(r) == number_view(n),
{
    Value::from(n)
}

/// Texts in a list of JSON values are read back.
pub proof fn lemma_texts_are_read_back(s: Seq<Seq<char>>)
    ensures
        texts_among(text_views(s)) == s,
    decreases s.len(),
{
    if s.len() == 0 {
        assert(texts_among(text_views(s)) =~= s);
    } else {
        lemma_texts_are_read_back(s.drop_last());
        assert(text_views(s).drop_last() =~= text_views(s.drop_last()));
        assert(s.drop_last().push(s.last()) =~= s);
    }
}

/// The name of a field stands before that of the next one.
pub open spec fn ascends(fields: Seq<(Seq<char>, JsonView)>, i: int) -> bool {
    text_le(fields[i - 1].0, fields[i].0) && fields[i - 1].0 != fields[i].0
}

/// What some fields of values of `serde_json` are.
pub open spec fn value_fields(fields: Seq<(String, serde_json::Value)>) -> Seq<
    (Seq<char>, JsonView),
> {
    fields.map_values(|f: (String, serde_json::Value)| (f.0@, value_view(f.1)))
}

/// `serde_json::Value::Object` over a `serde_json::Map` that is collected from
/// some fields. The map keeps its fields in the order of their names, or of
/// their arrival; here the two are the same. The contract claims that the value
/// holds these fields in this order.
#[verifier::external_body]
pub(crate) fn object_value(fields: Vec<(String, serde_json::Value)>) -> (r: serde_json::Value)
    requires
        forall|i: int| 0 < i < fields@.len() ==> #[trigger] ascends(value_fields(fields@), i),
    ensures
        value_view(r) == JsonView::Object(value_fields(fields@)),
{
    Value::Object(fields.into_iter().collect())
}

/// How an event payload is written.
pub fn payload_text(raw: &str) -> (r: String)
    ensures
        r@ == written_json(payload_of(read_json(raw@), raw@)),
{
    match value_from_str(raw) {
        Ok(v) => value_text(&v),
        Err(_) => {
            let mut fields: Vec<(String, serde_json::Value)> = Vec::new();
            fields.push((owned("raw"), text_value(raw)));
            assert(value_fields(fields@) =~= seq![("raw"@, JsonView::Text(raw@))]);
            value_text(&object_value(fields))
        },
    }
}

/// What a text tells: the JSON that it holds, or the text itself.
pub open spec fn data_of(read: Option<JsonView>, raw: Seq<char>) -> JsonView {
    match read {
        Some(v) => v,
        None => JsonView::Text(raw),
    }
}

/// What a text tells, as a value of `serde_json`.
pub(crate) fn data_value(raw: &str) -> (r: serde_json::Value)
    ensures
        value_view(r) == data_of(read_json(raw@), raw@),
{
    match value_from_str(raw) {
        Ok(v) => v,
        Err(_) => text_value(raw),
    }
}

/// How what a text tells is written.
pub fn compact_text(raw: &str) -> (r: String)
    ensures
        r@ == written_json(data_of(read_json(raw@), raw@)),
{
    value_text(&data_value(raw))
}

/// How what a text tells is written, where there is a text.
pub open spec fn compact_of(raw: Option<Seq<char>>) -> Option<Seq<char>> {
    match raw {
        Some(s) => Some(written_json(data_of(read_json(s), s))),
        None => None,
    }
}

/// How what a text tells is written, where there is a text.
pub fn compact_opt(raw: &Option<String>) -> (r: Option<String>)
    ensures
        opt_text(r) == compact_of(opt_text(*raw)),
{
    match raw {
        Some(s) => Some(compact_text(s.as_str())),
        None => None,
    }
}

/// What a text tells.
pub fn parse_data(raw: &str) -> (r: Json)
    ensures
        r@ == data_of(read_json(raw@), raw@),
{
    from_value(data_value(raw))
}

/// The JSON value that a text holds.
pub fn parse_json(raw: &str) -> (r: Option<Json>)
    ensures
        opt_json(r) == read_json(raw@),
{
    match value_from_str(raw) {
        Ok(v) => Some(from_value(v)),
        Err(_) => None,
    }
}

/// What an event payload is: the JSON that its text holds, or the text itself
/// under `raw`.
pub open spec fn payload_of(read: Option<JsonView>, raw: Seq<char>) -> JsonView {
    match read {
        Some(v) => v,
        None => JsonView::Object(seq![("raw"@, JsonView::Text(raw))]),
    }
}

/// The payload for what was read of its text.
pub fn payload_or_raw(read: Option<Json>, raw: &str) -> (r: Json)
    ensures
        r@ == payload_of(opt_json(read), raw@),
{
    match read {
        Some(v) => v,
        None => {
            let mut fields = Fields::new();
            fields.put("raw", Json::text(raw));
            assert(fields@ =~= seq![("raw"@, JsonView::Text(raw@))]);
            fields.object()
        },
    }
}

/// The JSON value of an event payload.
pub fn parse_payload(raw: &str) -> (r: Json)
    ensures
        r@ == payload_of(read_json(raw@), raw@),
{
    payload_or_raw(parse_json(raw), raw)
}

/// What an event payload is: the JSON that its text holds, or nothing.
pub open spec fn payload_or_null(read: Option<JsonView>) -> JsonView {
    match read {
        Some(v) => v,
        None => JsonView::Null,
    }
}

/// The JSON value of an event payload, or nothing.
pub fn parse_or_null(raw: &str) -> (r: Json)
    ensures
        r@ == payload_or_null(read_json(raw@)),
{
    match parse_json(raw) {
        Some(v) => v,
        None => Json::Null,
    }
}

/// The texts among some values.
pub open spec fn texts_among(items: Seq<JsonView>) -> Seq<Seq<char>>
    decreases items.len(),
{
    if items.len() == 0 {
        Seq::empty()
    } else {
        match items.last() {
            JsonView::Text(s) => texts_among(items.drop_last()).push(s),
            _ => texts_among(items.drop_last()),
        }
    }
}

/// The texts among some values.
pub fn texts_in(items: &Vec<Json>) -> (r: Vec<String>)
    ensures
        texts(r@) == texts_among(json_views(items@)),
{
    let ghost all = json_views(items@);
    let mut out: Vec<String> = Vec::new();
    let mut i: usize = 0;
    assert(all.take(0) =~= Seq::empty());
    assert(texts(out@) =~= Seq::empty());
    while i < items.len()
        invariant
            all == json_views(items@),
            i <= items@.len(),
            texts(out@) == texts_among(all.take(i as int)),
        decreases items@.len() - i,
    {
        assert(all.take(i + 1).drop_last() =~= all.take(i as int));
        assert(all.take(i + 1).last() == items@[i as int]@);
        let ghost before = texts(out@);
        match items[i].as_str() {
            Some(s) => {
                out.push(owned(s));
                assert(texts(out@) =~= before.push(s@));
            },
            None => {},
        }
        i += 1;
    }
    assert(all.take(i as int) =~= all);
    out
}

/// A field that is set has the new value, and every other field what it had.
pub proof fn set_fields_replace_or_join(
    fields: Seq<(Seq<char>, JsonView)>,
    key: Seq<char>,
    value: JsonView,
    other: Seq<char>,
)
    ensures
        find_field(with_field(fields, key, value), key) == Some(value),
        other != key ==> find_field(with_field(fields, key, value), other) == find_field(
            fields,
            other,
        ),
    decreases fields.len(),
{
    reveal_with_fuel(find_field, 2);
    let after = with_field(fields, key, value);
    if fields.len() == 0 {
        assert(after.drop_first() =~= Seq::empty());
    } else if fields[0].0 == key {
        assert(after.drop_first() =~= fields.drop_first());
    } else {
        let rest = fields.drop_first();
        set_fields_replace_or_join(rest, key, value, other);
        assert(after.drop_first() =~= with_field(rest, key, value));
    }
}

} // verus!
