//! JSON values, as trees of plain values.

use vstd::prelude::*;

use crate::text::same;

verus! {

/// A JSON value.
#[derive(Debug)]
pub enum Json {
    Null,
    Bool(bool),
    /// A number: how it is written, and its value where it is a whole number
    /// that fits in a `u64`.
    Number { text: String, whole: Option<u64> },
    Text(String),
    List(Vec<Json>),
    /// The fields of an object. A name stands at most once.
    Object(Vec<Field>),
}

/// A field of a JSON object.
#[derive(Debug)]
pub struct Field {
    pub name: String,
    pub value: Json,
}

/// The mathematical model of a JSON value.
#[verifier::ext_equal]
pub enum Tree {
    Null,
    Bool(bool),
    Number(Seq<char>, Option<u64>),
    Text(Seq<char>),
    List(Seq<Tree>),
    Object(Seq<(Seq<char>, Tree)>),
}

/// The tree that a JSON value is.
pub open spec fn tree(j: Json) -> Tree
    decreases j,
{
    match j {
        Json::Null => Tree::Null,
        Json::Bool(b) => Tree::Bool(b),
        Json::Number { text, whole } => Tree::Number(text@, whole),
        Json::Text(s) => Tree::Text(s@),
        Json::List(v) => Tree::List(
            Seq::new(
                v@.len(),
                |i: int|
                    if 0 <= i < v@.len() {
                        tree(v@[i])
                    } else {
                        Tree::Null
                    },
            ),
        ),
        Json::Object(v) => Tree::Object(
            Seq::new(
                v@.len(),
                |i: int|
                    if 0 <= i < v@.len() {
                        (v@[i].name@, tree(v@[i].value))
                    } else {
                        (Seq::empty(), Tree::Null)
                    },
            ),
        ),
    }
}

impl View for Json {
    type V = Tree;

    open spec fn view(&self) -> Tree {
        tree(*self)
    }
}

/// An outside JSON value, as `serde_json` holds it.
#[verifier::external_type_specification]
#[verifier::external_body]
pub struct ExValue(serde_json::Value);

/// The tree that an outside JSON value holds.
pub uninterp spec fn value_tree(v: serde_json::Value) -> Tree;

/// The tree that `serde_json::from_str` reads from a text, where it accepts it.
pub uninterp spec fn text_tree(text: Seq<char>) -> Option<Tree>;

/// Calls `serde_json::from_str::<serde_json::Value>`: a function of the text
/// alone. A text that it refuses gives nothing. A text in a field of what it
/// reads is shorter than the text it is read from: no character of it is written
/// with less than one, and there are the quotes around it.
#[verifier::external_body]
fn read_value(text: &str) -> (r: Option<serde_json::Value>)
    ensures
        match r {
            Some(v) => text_tree(text@) == Some(value_tree(v)),
            None => text_tree(text@) is None,
        },
        r matches Some(v) ==> forall|name: Seq<char>|
            #[trigger] value_tree(v).text_member(name) matches Some(s) ==> s.len() < text@.len(),
{
    serde_json::from_str::<serde_json::Value>(text).ok()
}

/// Converts an outside JSON value, variant by variant. A number keeps what
/// `Number::to_string` writes and what `Number::as_u64` answers.
#[verifier::external_body]
fn from_value(v: serde_json::Value) -> (r: Json)
    ensures
        r@ == value_tree(v),
{
    match v {
        serde_json::Value::Null => Json::Null,
        serde_json::Value::Bool(b) => Json::Bool(b),
        serde_json::Value::Number(n) => Json::Number { text: n.to_string(), whole: n.as_u64() },
        serde_json::Value::String(s) => Json::Text(s),
        serde_json::Value::Array(a) => Json::List(a.into_iter().map(from_value).collect()),
        serde_json::Value::Object(m) => Json::Object(
            m.into_iter().map(|(name, v)| Field { name, value: from_value(v) }).collect(),
        ),
    }
}

/// Reads a JSON text.
pub fn parse_json(text: &str) -> (r: Option<Json>)
    ensures
        match r {
            Some(j) => text_tree(text@) == Some(j@),
            None => text_tree(text@) is None,
        },
        r matches Some(j) ==> forall|name: Seq<char>|
            #[trigger] j@.text_member(name) matches Some(s) ==> s.len() < text@.len(),
{
    match read_value(text) {
        Some(v) => Some(from_value(v)),
        None => None,
    }
}

/// The value of the first field called `name` from position `i` on.
pub open spec fn field_from(fields: Seq<(Seq<char>, Tree)>, name: Seq<char>, i: int) -> Option<Tree>
    decreases fields.len() - i,
{
    if i < 0 || i >= fields.len() {
        None
    } else if fields[i].0 == name {
        Some(fields[i].1)
    } else {
        field_from(fields, name, i + 1)
    }
}

impl Tree {
    /// The value of the field called `name`, where this is an object that has
    /// one.
    pub open spec fn member(self, name: Seq<char>) -> Option<Tree> {
        match self {
            Tree::Object(fields) => field_from(fields, name, 0),
            _ => None,
        }
    }

    /// The text that this is, where it is one.
    pub open spec fn as_text(self) -> Option<Seq<char>> {
        match self {
            Tree::Text(s) => Some(s),
            _ => None,
        }
    }

    /// The element at position `i`, where this is a list that has one.
    pub open spec fn element(self, i: int) -> Option<Tree> {
        match self {
            Tree::List(v) => if 0 <= i < v.len() {
                Some(v[i])
            } else {
                None
            },
            _ => None,
        }
    }

    /// The whole number that this is, where it is one.
    pub open spec fn as_whole(self) -> Option<u64> {
        match self {
            Tree::Number(_, whole) => whole,
            _ => None,
        }
    }

    /// How the number that this is, is written, where it is one.
    pub open spec fn as_number(self) -> Option<Seq<char>> {
        match self {
            Tree::Number(text, _) => Some(text),
            _ => None,
        }
    }

    /// The truth value that this is, where it is one.
    pub open spec fn as_truth(self) -> Option<bool> {
        match self {
            Tree::Bool(b) => Some(b),
            _ => None,
        }
    }

    /// The text in the field called `name`.
    pub open spec fn text_member(self, name: Seq<char>) -> Option<Seq<char>> {
        match self.member(name) {
            Some(t) => t.as_text(),
            None => None,
        }
    }

    /// The whole number in the field called `name`.
    pub open spec fn whole_member(self, name: Seq<char>) -> Option<u64> {
        match self.member(name) {
            Some(t) => t.as_whole(),
            None => None,
        }
    }

    /// How the number in the field called `name` is written.
    pub open spec fn number_member(self, name: Seq<char>) -> Option<Seq<char>> {
        match self.member(name) {
            Some(t) => t.as_number(),
            None => None,
        }
    }

    /// The truth value in the field called `name`.
    pub open spec fn truth_member(self, name: Seq<char>) -> Option<bool> {
        match self.member(name) {
            Some(t) => t.as_truth(),
            None => None,
        }
    }
}

/// The characters of a text that may be missing.
pub open spec fn option_view(s: Option<String>) -> Option<Seq<char>> {
    match s {
        Some(t) => Some(t@),
        None => None,
    }
}

/// The characters of a borrowed text that may be missing.
pub open spec fn option_str_view(s: Option<&str>) -> Option<Seq<char>> {
    match s {
        Some(t) => Some(t@),
        None => None,
    }
}

/// The tree of a value that may be missing.
pub open spec fn option_tree(j: Option<&Json>) -> Option<Tree> {
    match j {
        Some(v) => Some(v@),
        None => None,
    }
}

impl Json {
    /// The value of the field called `name`, where this is an object that has
    /// one.
    pub fn get<'a>(&'a self, name: &str) -> (r: Option<&'a Json>)
        ensures
            option_tree(r) == self@.member(name@),
    {
        match self {
            Json::Object(fields) => {
                let mut i: usize = 0;
                while i < fields.len()
                    invariant
                        *self == Json::Object(*fields),
                        i <= fields@.len(),
                        self@.member(name@) == field_from(self@->Object_0, name@, i as int),
                    decreases fields.len() - i,
                {
                    assert(self@->Object_0[i as int] == (
                        fields@[i as int].name@,
                        fields@[i as int].value@,
                    ));
                    if same(fields[i].name.as_str(), name) {
                        return Some(&fields[i].value);
                    }
                    i += 1;
                }
                None
            },
            _ => None,
        }
    }

    /// The element at position `i`, where this is a list that has one.
    pub fn item<'a>(&'a self, i: usize) -> (r: Option<&'a Json>)
        ensures
            option_tree(r) == self@.element(i as int),
    {
        match self {
            Json::List(v) => {
                if i < v.len() {
                    assert(self@->List_0[i as int] == v@[i as int]@);
                    Some(&v[i])
                } else {
                    None
                }
            },
            _ => None,
        }
    }

    /// The text that this is, where it is one.
    pub fn as_str<'a>(&'a self) -> (r: Option<&'a str>)
        ensures
            option_str_view(r) == self@.as_text(),
    {
        match self {
            Json::Text(s) => Some(s.as_str()),
            _ => None,
        }
    }

    /// The text in the field called `name`.
    pub fn text_field<'a>(&'a self, name: &str) -> (r: Option<&'a str>)
        ensures
            option_str_view(r) == self@.text_member(name@),
    {
        match self.get(name) {
            Some(v) => v.as_str(),
            None => None,
        }
    }

    /// A copy of the text in the field called `name`.
    pub fn owned_field(&self, name: &str) -> (r: Option<String>)
        ensures
            option_view(r) == self@.text_member(name@),
    {
        match self.text_field(name) {
            Some(s) => Some(s.to_owned()),
            None => None,
        }
    }

    /// The whole number in the field called `name`.
    pub fn whole_field(&self, name: &str) -> (r: Option<u64>)
        ensures
            r == self@.whole_member(name@),
    {
        match self.get(name) {
            Some(Json::Number { whole, .. }) => *whole,
            _ => None,
        }
    }

    /// How the number in the field called `name` is written.
    pub fn number_field(&self, name: &str) -> (r: Option<String>)
        ensures
            option_view(r) == self@.number_member(name@),
    {
        match self.get(name) {
            Some(Json::Number { text, .. }) => Some(text.clone()),
            _ => None,
        }
    }

    /// The truth value in the field called `name`.
    pub fn truth_field(&self, name: &str) -> (r: Option<bool>)
        ensures
            r == self@.truth_member(name@),
    {
        match self.get(name) {
            Some(Json::Bool(b)) => Some(*b),
            _ => None,
        }
    }
}

/// The field called `name` of a value that may be missing.
pub open spec fn member_of(t: Option<Tree>, name: Seq<char>) -> Option<Tree> {
    match t {
        Some(t) => t.member(name),
        None => None,
    }
}

/// The element at position `i` of a value that may be missing.
pub open spec fn element_of(t: Option<Tree>, i: int) -> Option<Tree> {
    match t {
        Some(t) => t.element(i),
        None => None,
    }
}

/// The text that a value that may be missing is.
pub open spec fn text_of(t: Option<Tree>) -> Option<Seq<char>> {
    match t {
        Some(t) => t.as_text(),
        None => None,
    }
}

/// The elements of a value that may be missing; none where it is no list.
pub open spec fn elements_of(t: Option<Tree>) -> Seq<Tree> {
    match t {
        Some(Tree::List(v)) => v,
        _ => Seq::empty(),
    }
}

/// The field called `name` of a value that may be missing.
pub fn field<'a>(j: Option<&'a Json>, name: &str) -> (r: Option<&'a Json>)
    ensures
        option_tree(r) == member_of(option_tree(j), name@),
{
    match j {
        Some(v) => v.get(name),
        None => None,
    }
}

/// The element at position `i` of a value that may be missing.
pub fn nth<'a>(j: Option<&'a Json>, i: usize) -> (r: Option<&'a Json>)
    ensures
        option_tree(r) == element_of(option_tree(j), i as int),
{
    match j {
        Some(v) => v.item(i),
        None => None,
    }
}

/// The text that a value that may be missing is.
pub fn text<'a>(j: Option<&'a Json>) -> (r: Option<&'a str>)
    ensures
        option_str_view(r) == text_of(option_tree(j)),
{
    match j {
        Some(v) => v.as_str(),
        None => None,
    }
}

/// The trees of some values.
pub open spec fn trees(v: Seq<&Json>) -> Seq<Tree> {
    v.map_values(|j: &Json| j@)
}

/// The elements of a value that may be missing; none where it is no list.
pub fn items<'a>(j: Option<&'a Json>) -> (r: Vec<&'a Json>)
    ensures
        trees(r@) == elements_of(option_tree(j)),
{
    let mut out: Vec<&'a Json> = Vec::new();
    if let Some(Json::List(v)) = j {
        let ghost all = elements_of(option_tree(j));
        let mut i: usize = 0;
        while i < v.len()
            invariant
                j == Some(&Json::List(*v)),
                all == elements_of(option_tree(j)),
                all.len() == v@.len(),
                forall|k: int| 0 <= k < v@.len() ==> #[trigger] all[k] == v@[k]@,
                i <= v@.len(),
                out@.len() == i,
                forall|k: int| 0 <= k < i ==> (#[trigger] out@[k])@ == all[k],
            decreases v.len() - i,
        {
            out.push(&v[i]);
            i += 1;
        }
        assert(trees(out@) =~= all);
    } else {
        assert(trees(out@) =~= Seq::<Tree>::empty());
    }
    out
}

proof fn lemma_field_from(fields: Seq<(Seq<char>, Tree)>, name: Seq<char>, i: int, k: int)
    requires
        0 <= i <= k <= fields.len(),
        forall|j: int| i <= j < k ==> (#[trigger] fields[j]).0 != name,
    ensures
        k < fields.len() && fields[k].0 == name ==> field_from(fields, name, i) == Some(
            fields[k].1,
        ),
        k == fields.len() ==> field_from(fields, name, i) is None,
    decreases k - i,
{
    if i < k {
        lemma_field_from(fields, name, i + 1, k);
    }
}

/// A member is the value of the first field of that name; where no field has the
/// name, there is none, and what is no object has none.
pub proof fn members_go_by_name(t: Tree, fields: Seq<(Seq<char>, Tree)>, name: Seq<char>, k: int)
    requires
        0 <= k <= fields.len(),
        forall|j: int| 0 <= j < k ==> (#[trigger] fields[j]).0 != name,
    ensures
        k < fields.len() && fields[k].0 == name ==> Tree::Object(fields).member(name) == Some(
            fields[k].1,
        ),
        k == fields.len() ==> Tree::Object(fields).member(name) is None,
        t !is Object ==> t.member(name) is None,
{
    lemma_field_from(fields, name, 0, k);
}

/// A member is read as a text, a whole number, a number or a truth value where it
/// is one, and gives what it holds.
pub proof fn members_are_read_as_what_they_are(t: Tree, name: Seq<char>)
    ensures
        match t.member(name) {
            Some(Tree::Text(s)) => t.text_member(name) == Some(s),
            _ => t.text_member(name) is None,
        },
        match t.member(name) {
            Some(Tree::Number(_, whole)) => t.whole_member(name) == whole,
            _ => t.whole_member(name) is None,
        },
        match t.member(name) {
            Some(Tree::Number(written, _)) => t.number_member(name) == Some(written),
            _ => t.number_member(name) is None,
        },
        match t.member(name) {
            Some(Tree::Bool(b)) => t.truth_member(name) == Some(b),
            _ => t.truth_member(name) is None,
        },
{
}

/// The elements of a list are those that it holds, in order; what is no list has
/// none.
pub proof fn elements_are_those_of_the_list(t: Tree, v: Seq<Tree>, i: int)
    ensures
        elements_of(Some(Tree::List(v))) == v,
        0 <= i < v.len() ==> Tree::List(v).element(i) == Some(v[i]),
        i < 0 || i >= v.len() ==> Tree::List(v).element(i) is None,
        t !is List ==> t.element(i) is None && elements_of(Some(t)).len() == 0,
        elements_of(None).len() == 0,
{
}

/// A value is the tree of what it holds: a list of its elements in order, an
/// object of its fields by name, and anything else itself.
pub proof fn trees_hold_what_values_hold(j: Json)
    ensures
        match j {
            Json::Null => j@ == Tree::Null,
            Json::Bool(b) => j@ == Tree::Bool(b),
            Json::Number { text, whole } => j@ == Tree::Number(text@, whole),
            Json::Text(s) => j@ == Tree::Text(s@),
            Json::List(v) => {
                &&& j@ is List
                &&& j@->List_0.len() == v@.len()
                &&& forall|i: int| 0 <= i < v@.len() ==> #[trigger] j@->List_0[i] == v@[i]@
            },
            Json::Object(v) => {
                &&& j@ is Object
                &&& j@->Object_0.len() == v@.len()
                &&& forall|i: int|
                    0 <= i < v@.len() ==> (#[trigger] j@->Object_0[i]).0 == v@[i].name@
                        && j@->Object_0[i].1 == v@[i].value@
            },
        },
{
}

/// A text or a value that may be missing is itself where it is there.
pub proof fn missing_values_stay_missing(s: String, t: &str, j: &Json)
    ensures
        option_view(Some(s)) == Some(s@) && option_view(None) is None,
        option_str_view(Some(t)) == Some(t@) && option_str_view(None) is None,
        option_tree(Some(j)) == Some(j@) && option_tree(None) is None,
{
}

} // verus!
