//! The JSON values that the tools read and build.
use vstd::prelude::*;

use crate::text::{
    ascending, ascending_has_no_duplicates, is_before, same_text, text_before,
    text_before_irreflexive, text_before_total, text_before_transitive,
};

verus! {

/// What a JSON value says, apart from how it is held in memory: a number is its
/// decimal text, an array a sequence, and an object a map from names to values.
#[verifier::ext_equal]
pub enum JsonView {
    Null,
    Bool(bool),
    Number(Seq<char>),
    Str(Seq<char>),
    Array(Seq<JsonView>),
    Object(Map<Seq<char>, JsonView>),
}

/// The members of an object that has none.
pub open spec fn without_members() -> Map<Seq<char>, JsonView> {
    Map::empty()
}

/// The decimal text of a number, as `serde_json::Number` displays it.
pub uninterp spec fn number_text(n: serde_json::Number) -> Seq<char>;

/// `serde_json::Number`, which is carried and never looked into.
#[verifier::external_type_specification]
#[verifier::external_body]
pub struct ExNumber(serde_json::Number);

/// `Clone` of `serde_json::Number`: the copy is displayed as the number is.
pub assume_specification[ <serde_json::Number as Clone>::clone ](
    n: &serde_json::Number,
) -> (r: serde_json::Number)
    ensures
        number_text(r) == number_text(*n),
;

/// A JSON value.
#[derive(Debug, PartialEq)]
pub enum Json {
    Null,
    Bool(bool),
    Number(serde_json::Number),
    Str(String),
    Array(Vec<Json>),
    Object(JsonObject),
}

/// A JSON object: its members in the order of their names, each name once.
#[derive(Debug, PartialEq)]
pub struct JsonObject {
    entries: Vec<(String, Json)>,
}

impl Json {
    /// What the value says.
    pub open spec fn tree(self) -> JsonView
        decreases self,
    {
        match self {
            Json::Null => JsonView::Null,
            Json::Bool(b) => JsonView::Bool(b),
            Json::Number(n) => JsonView::Number(number_text(n)),
            Json::Str(s) => JsonView::Str(s@),
            Json::Array(items) => JsonView::Array(
                Seq::new(
                    items@.len(),
                    |i: int| if 0 <= i < items@.len() { items@[i].tree() } else { JsonView::Null },
                ),
            ),
            Json::Object(members) => JsonView::Object(members.tree()),
        }
    }
}

impl View for Json {
    type V = JsonView;

    open spec fn view(&self) -> JsonView {
        self.tree()
    }
}

/// The place of the member with the given name.
spec fn place(entries: Seq<(String, Json)>, name: Seq<char>) -> int {
    choose|i: int| 0 <= i < entries.len() && (#[trigger] entries[i]).0@ == name
}

impl JsonObject {
    /// The members, by name.
    pub closed spec fn tree(self) -> Map<Seq<char>, JsonView>
        decreases self,
    {
        Map::new(
            |name: Seq<char>| self.keys().contains(name),
            |name: Seq<char>|
                {
                    let i = place(self.entries@, name);
                    if 0 <= i < self.entries@.len() {
                        self.entries@[i].1.tree()
                    } else {
                        JsonView::Null
                    }
                },
        )
    }

    /// The names of the members, in order.
    pub closed spec fn keys(self) -> Seq<Seq<char>> {
        Seq::new(self.entries@.len(), |i: int| self.entries@[i].0@)
    }

    #[verifier::type_invariant]
    spec fn names_ascend(self) -> bool {
        ascending(self.keys())
    }
}

impl View for JsonObject {
    type V = Map<Seq<char>, JsonView>;

    open spec fn view(&self) -> Map<Seq<char>, JsonView> {
        self.tree()
    }
}

/// The set of the first names grows by one name at a time.
pub proof fn first_names_grow(names: Seq<Seq<char>>, i: int)
    requires
        0 <= i < names.len(),
    ensures
        names.take(i + 1).to_set() == names.take(i).to_set().insert(names[i]),
{
    let more = names.take(i + 1);
    let fewer = names.take(i);
    assert forall|k: Seq<char>| more.contains(k) == (fewer.contains(k) || k == names[i]) by {
        if fewer.contains(k) {
            let j = choose|j: int| 0 <= j < i && fewer[j] == k;
            assert(more[j] == k);
        }
        if k == names[i] {
            assert(more[i] == k);
        }
    }
    assert(more.to_set() =~= fewer.to_set().insert(names[i]));
}

impl JsonObject {
    /// What the members say, told by their places.
    proof fn members_by_place(self)
        requires
            ascending(self.keys()),
        ensures
            self@.dom() =~= self.keys().to_set(),
            self@.dom().finite(),
            forall|i: int|
                0 <= i < self.entries@.len() ==> self@[(#[trigger] self.entries@[i]).0@]
                    == self.entries@[i].1.tree(),
            forall|i: int|
                0 <= i < self.entries@.len() ==> self@.dom().contains(
                    (#[trigger] self.entries@[i]).0@,
                ),
    {
        ascending_has_no_duplicates(self.keys());
        broadcast use vstd::seq_lib::seq_to_set_is_finite;

        assert(self@.dom() =~= self.keys().to_set());
        assert forall|i: int| 0 <= i < self.entries@.len() implies self@.dom().contains(
            (#[trigger] self.entries@[i]).0@,
        ) && self@[self.entries@[i].0@] == self.entries@[i].1.tree() by {
            let name = self.entries@[i].0@;
            assert(self.keys()[i] == name);
            let p = place(self.entries@, name);
            assert(0 <= p < self.entries@.len() && self.entries@[p].0@ == name);
            assert(self.keys()[p] == name);
            assert(p == i);
        }
    }

    /// An object without members.
    pub fn new() -> (r: JsonObject)
        ensures
            r@ == without_members(),
            r.keys() == Seq::<Seq<char>>::empty(),
    {
        let r = JsonObject { entries: Vec::new() };
        assert(r@ =~= without_members());
        r
    }

    /// How many members there are.
    pub fn len(&self) -> (r: usize)
        ensures
            r == self.keys().len(),
            ascending(self.keys()),
            self@.dom() == self.keys().to_set(),
            self@.dom().finite(),
    {
        proof {
            use_type_invariant(self);
            self.members_by_place();
        }
        self.entries.len()
    }

    /// The name of the member at place `i`.
    pub fn name(&self, i: usize) -> (r: &String)
        requires
            i < self.keys().len(),
        ensures
            r@ == self.keys()[i as int],
    {
        &self.entries[i].0
    }

    /// The value of the member at place `i`.
    pub fn value(&self, i: usize) -> (r: &Json)
        requires
            i < self.keys().len(),
        ensures
            self@.dom().contains(self.keys()[i as int]),
            r@ == self@[self.keys()[i as int]],
    {
        proof {
            use_type_invariant(self);
            self.members_by_place();
        }
        &self.entries[i].1
    }

    /// The place at which `name` stands, or would have to stand.
    fn find(&self, name: &str) -> (r: (usize, bool))
        ensures
            r.0 <= self.keys().len(),
            r.1 ==> r.0 < self.keys().len() && self.keys()[r.0 as int] == name@,
            !r.1 ==> !self.keys().contains(name@),
            forall|j: int| 0 <= j < r.0 ==> text_before(#[trigger] self.keys()[j], name@),
            !r.1 ==> forall|j: int|
                r.0 <= j < self.keys().len() ==> text_before(name@, #[trigger] self.keys()[j]),
    {
        proof {
            use_type_invariant(self);
        }
        let mut i: usize = 0;
        while i < self.entries.len() && is_before(self.entries[i].0.as_str(), name)
            invariant
                i <= self.entries.len(),
                forall|j: int| 0 <= j < i ==> text_before(#[trigger] self.keys()[j], name@),
            decreases self.entries.len() - i,
        {
            assert(self.keys()[i as int] == self.entries@[i as int].0@);
            i += 1;
        }
        let found = i < self.entries.len() && same_text(self.entries[i].0.as_str(), name);
        proof {
            if i < self.entries.len() {
                assert(self.keys()[i as int] == self.entries@[i as int].0@);
            }
            if !found {
                assert forall|j: int| i <= j < self.keys().len() implies text_before(
                    name@,
                    #[trigger] self.keys()[j],
                ) by {
                    text_before_total(self.keys()[i as int], name@);
                    if i < j {
                        text_before_transitive(name@, self.keys()[i as int], self.keys()[j]);
                    }
                }
                text_before_irreflexive(name@);
                if self.keys().contains(name@) {
                    let j = choose|j: int| 0 <= j < self.keys().len() && self.keys()[j] == name@;
                    assert(text_before(self.keys()[j], name@) || text_before(name@, self.keys()[j]));
                }
            }
        }
        (i, found)
    }

    /// The value of the member called `name`.
    pub fn get(&self, name: &str) -> (r: Option<&Json>)
        ensures
            match r {
                Some(v) => self@.dom().contains(name@) && v@ == self@[name@],
                None => !self@.dom().contains(name@),
            },
    {
        proof {
            use_type_invariant(self);
            self.members_by_place();
        }
        let (i, found) = self.find(name);
        if found {
            assert(self.entries@[i as int].0@ == name@);
            Some(&self.entries[i].1)
        } else {
            None
        }
    }

    /// Sets the member called `name`, which replaces one that has that name.
    pub fn insert(&mut self, name: String, value: Json)
        ensures
            final(self)@ == old(self)@.insert(name@, value@),
    {
        proof {
            use_type_invariant(&*self);
            self.members_by_place();
        }
        let ghost before = *self;
        let (i, found) = self.find(name.as_str());
        let ghost shown = name@;
        let ghost said = value@;
        let mut entries: Vec<(String, Json)> = Vec::new();
        std::mem::swap(&mut entries, &mut self.entries);
        if found {
            entries.set(i, (name, value));
        } else {
            entries.insert(i, (name, value));
        }
        proof {
            let after = JsonObject { entries };
            if found {
                assert(after.keys() =~= before.keys());
            } else {
                assert(after.keys() =~= before.keys().insert(i as int, shown));
                assert forall|a: int, b: int| 0 <= a < b < after.keys().len() implies text_before(
                    #[trigger] after.keys()[a],
                    #[trigger] after.keys()[b],
                ) by {
                    let p = if a < i { a } else { a - 1 };
                    let q = if b < i { b } else { b - 1 };
                    if a != i && b != i {
                        assert(text_before(before.keys()[p], before.keys()[q]));
                    } else if a == i {
                        assert(text_before(shown, before.keys()[q]));
                    } else {
                        assert(text_before(before.keys()[p], shown));
                    }
                }
            }
            after.members_by_place();
            assert(after@ =~= before@.insert(shown, said)) by {
                assert forall|k: Seq<char>| after@.dom().contains(k) <==> (k == shown
                    || before@.dom().contains(k)) by {
                    if before.keys().contains(k) {
                        let j = choose|j: int| 0 <= j < before.keys().len() && before.keys()[j] == k;
                        let n = if found || j < i { j } else { j + 1 };
                        assert(after.keys()[n] == k || k == shown);
                    }
                    assert(after.keys()[i as int] == shown);
                    if after.keys().contains(k) && k != shown {
                        let j = choose|j: int| 0 <= j < after.keys().len() && after.keys()[j] == k;
                        let n = if found || j < i { j } else { j - 1 };
                        assert(before.keys()[n] == k);
                    }
                }
                assert forall|k: Seq<char>| after@.dom().contains(k) implies after@[k]
                    == before@.insert(shown, said)[k] by {
                    let j = choose|j: int| 0 <= j < after.keys().len() && after.keys()[j] == k;
                    assert(after.entries@[j].0@ == k);
                    if j == i {
                    } else {
                        let n = if found || j < i { j } else { j - 1 };
                        assert(before.entries@[n].0@ == k);
                        assert(after.entries@[j] == before.entries@[n]);
                        ascending_has_no_duplicates(after.keys());
                    }
                }
            }
        }
        self.entries = entries;
    }
}

/// Whether every object in a value has finitely many members.
pub open spec fn is_finite(value: JsonView) -> bool
    decreases value,
{
    match value {
        JsonView::Array(items) => forall|i: int|
            0 <= i < items.len() ==> is_finite(#[trigger] items[i]),
        JsonView::Object(members) => {
            &&& members.dom().finite()
            &&& forall|name: Seq<char>|
                #[trigger] members.dom().contains(name) ==> is_finite(members[name])
        },
        _ => true,
    }
}

/// What a JSON value says is finite.
pub proof fn json_is_finite(value: Json)
    ensures
        is_finite(value@),
    decreases value,
{
    match value {
        Json::Array(items) => {
            let told = trees(items@);
            assert(value@->Array_0 =~= told);
            assert forall|i: int| 0 <= i < told.len() implies is_finite(
                #[trigger] told[i],
            ) by {
                json_is_finite(items@[i]);
            }
        },
        Json::Object(members) => {
            broadcast use vstd::seq_lib::seq_to_set_is_finite;

            assert(members@.dom() =~= members.keys().to_set());
            assert forall|name: Seq<char>| #[trigger]
                members@.dom().contains(name) implies is_finite(members@[name]) by {
                let i = choose|i: int| 0 <= i < members.keys().len() && members.keys()[i] == name;
                assert(members.entries@[i].0@ == name);
                let p = place(members.entries@, name);
                json_is_finite(members.entries@[p].1);
            }
        },
        _ => {},
    }
}

/// What each of the values says.
pub open spec fn trees(items: Seq<Json>) -> Seq<JsonView> {
    Seq::new(items.len(), |i: int| items[i]@)
}

/// The member called `name`, where the value is an object that has it.
pub open spec fn member(value: JsonView, name: Seq<char>) -> Option<JsonView> {
    match value {
        JsonView::Object(members) => if members.dom().contains(name) {
            Some(members[name])
        } else {
            None
        },
        _ => None,
    }
}

/// The text of the member called `name`, where there is such a member and it is a
/// string.
pub open spec fn text_member(value: JsonView, name: Seq<char>) -> Option<Seq<char>> {
    match member(value, name) {
        Some(JsonView::Str(s)) => Some(s),
        _ => None,
    }
}

/// The items of the member called `name`, where there is such a member and it is
/// an array.
pub open spec fn array_member(value: JsonView, name: Seq<char>) -> Option<Seq<JsonView>> {
    match member(value, name) {
        Some(JsonView::Array(items)) => Some(items),
        _ => None,
    }
}

/// Lifts what is said of one value to a value that may be absent.
pub open spec fn tree_of(value: Option<&Json>) -> Option<JsonView> {
    match value {
        Some(v) => Some(v@),
        None => None,
    }
}

impl Clone for Json {
    fn clone(&self) -> (r: Self)
        ensures
            r@ == self@,
        decreases self@,
    {
        let ghost said = self@;
        match self {
            Json::Null => Json::Null,
            Json::Bool(b) => Json::Bool(*b),
            Json::Number(n) => Json::Number(n.clone()),
            Json::Str(s) => Json::Str(s.clone()),
            Json::Array(items) => {
                let mut out: Vec<Json> = Vec::new();
                let mut i: usize = 0;
                while i < items.len()
                    invariant
                        i == out@.len(),
                        i <= items@.len(),
                        *self == Json::Array(*items),
                        said == self@,
                        forall|j: int| 0 <= j < i ==> (#[trigger] out@[j])@ == items@[j]@,
                    decreases items.len() - i,
                {
                    assert(decreases_to!(said => said->Array_0));
                    assert(said->Array_0[i as int] == items@[i as int]@);
                    assert(decreases_to!(said->Array_0 => said->Array_0[i as int]));
                    out.push(items[i].clone());
                    i += 1;
                }
                let r = Json::Array(out);
                assert(r@->Array_0 =~= self@->Array_0);
                r
            },
            Json::Object(members) => {
                let mut out = JsonObject::new();
                let mut i: usize = 0;
                let n = members.len();
                while i < n
                    invariant
                        i <= n,
                        n == members.keys().len(),
                        *self == Json::Object(*members),
                        said == self@,
                        members@.dom() == members.keys().to_set(),
                        members@.dom().finite(),
                        out@.dom() == members.keys().take(i as int).to_set(),
                        forall|k: Seq<char>| #[trigger]
                            out@.dom().contains(k) ==> out@[k] == members@[k],
                    decreases n - i,
                {
                    let ghost keys = members.keys();
                    let name = members.name(i).clone();
                    let value = members.value(i);
                    assert(decreases_to!(said => said->Object_0));
                    assert(decreases_to!(said->Object_0 => said->Object_0[keys[i as int]]));
                    out.insert(name, value.clone());
                    proof {
                        first_names_grow(keys, i as int);
                    }
                    i += 1;
                }
                assert(members.keys().take(n as int) =~= members.keys());
                assert(out@ =~= members@);
                Json::Object(out)
            },
        }
    }
}

impl Json {
    /// The value of the member called `name`.
    pub fn get(&self, name: &str) -> (r: Option<&Json>)
        ensures
            tree_of(r) == member(self@, name@),
    {
        match self {
            Json::Object(members) => members.get(name),
            _ => None,
        }
    }

    /// The text, where the value is a string.
    pub fn as_str(&self) -> (r: Option<&str>)
        ensures
            match r {
                Some(s) => self@ == JsonView::Str(s@),
                None => !(self@ is Str),
            },
    {
        match self {
            Json::Str(s) => Some(s.as_str()),
            _ => None,
        }
    }

    /// The items, where the value is an array.
    pub fn as_array(&self) -> (r: Option<&Vec<Json>>)
        ensures
            match r {
                Some(items) => self@ == JsonView::Array(trees(items@)),
                None => !(self@ is Array),
            },
    {
        match self {
            Json::Array(items) => {
                assert(self@->Array_0 =~= trees(items@));
                Some(items)
            },
            _ => None,
        }
    }

    /// The members, where the value is an object.
    pub fn as_object(&self) -> (r: Option<&JsonObject>)
        ensures
            match r {
                Some(members) => self@ == JsonView::Object(members@),
                None => !(self@ is Object),
            },
    {
        match self {
            Json::Object(members) => Some(members),
            _ => None,
        }
    }

    /// Whether the value is `true`.
    pub fn is_true(&self) -> (r: bool)
        ensures
            r == (self@ == JsonView::Bool(true)),
    {
        match self {
            Json::Bool(b) => *b,
            _ => false,
        }
    }

    /// The text of the member called `name`, where there is such a member and it
    /// is a string.
    pub fn text(&self, name: &str) -> (r: Option<&str>)
        ensures
            match r {
                Some(s) => text_member(self@, name@) == Some(s@),
                None => text_member(self@, name@) is None,
            },
    {
        match self.get(name) {
            Some(v) => v.as_str(),
            None => None,
        }
    }

    /// The items of the member called `name`, where there is such a member and it
    /// is an array.
    pub fn array(&self, name: &str) -> (r: Option<&Vec<Json>>)
        ensures
            match r {
                Some(items) => array_member(self@, name@) == Some(trees(items@)),
                None => array_member(self@, name@) is None,
            },
    {
        match self.get(name) {
            Some(v) => v.as_array(),
            None => None,
        }
    }
}

/// Only an object has members: it has a member of a name exactly where it has the name, and a
/// text or an array by a name exactly where the member is one.
pub proof fn a_member_is_told(
    members: Map<Seq<char>, JsonView>,
    other: JsonView,
    name: Seq<char>,
    text: Seq<char>,
    items: Seq<JsonView>,
)
    requires
        !(other is Object),
    ensures
        members.dom().contains(name) ==> member(JsonView::Object(members), name) == Some(
            members[name],
        ),
        !members.dom().contains(name) ==> member(JsonView::Object(members), name) is None,
        member(other, name) is None,
        text_member(JsonView::Object(members), name) == Some(text) <==> members.dom().contains(
            name,
        ) && members[name] == JsonView::Str(text),
        text_member(other, name) is None,
        array_member(JsonView::Object(members), name) == Some(items) <==> members.dom().contains(
            name,
        ) && members[name] == JsonView::Array(items),
        array_member(other, name) is None,
        without_members().dom() =~= Set::<Seq<char>>::empty(),
{
}

/// What is looked up in a value is what the value has: its members by their names, and
/// itself as a text, an array, an object or `true` exactly where it is one.
pub proof fn values_are_told(
    value: &Json,
    object: &JsonObject,
    name: &str,
    found: Option<&Json>,
    text: Option<&str>,
    items: Option<&Vec<Json>>,
    members: Option<&JsonObject>,
    truth: bool,
)
    ensures
        call_ensures(JsonObject::get, (object, name), found) ==> found is Some
            == object@.dom().contains(name@) && (found matches Some(v) ==> v@ == object@[name@]),
        call_ensures(Json::get, (value, name), found) ==> (found matches Some(v) ==> value@
            is Object && value@->Object_0.dom().contains(name@) && v@ == value@->Object_0[name@]),
        call_ensures(Json::get, (value, name), found) && found is None ==> !(value@ is Object
            && value@->Object_0.dom().contains(name@)),
        call_ensures(Json::as_str, (value,), text) ==> text is Some == value@ is Str && (
        text matches Some(s) ==> value@ == JsonView::Str(s@)),
        call_ensures(Json::as_array, (value,), items) ==> items is Some == value@ is Array && (
        items matches Some(list) ==> value@ == JsonView::Array(trees(list@))),
        call_ensures(Json::as_object, (value,), members) ==> members is Some == value@ is Object
            && (members matches Some(m) ==> value@ == JsonView::Object(m@)),
        call_ensures(Json::is_true, (value,), truth) ==> truth == (value@ == JsonView::Bool(true)),
        call_ensures(Json::text, (value, name), text) ==> (text matches Some(s) ==> member(
            value@,
            name@,
        ) == Some(JsonView::Str(s@))),
        call_ensures(Json::text, (value, name), text) && text is None ==> !(member(
            value@,
            name@,
        ) matches Some(JsonView::Str(s))),
        call_ensures(Json::array, (value, name), items) ==> (items matches Some(list) ==> member(
            value@,
            name@,
        ) == Some(JsonView::Array(trees(list@)))),
        call_ensures(Json::array, (value, name), items) && items is None ==> !(member(
            value@,
            name@,
        ) matches Some(JsonView::Array(list))),
{
    if call_ensures(Json::text, (value, name), text) {
        if let Some(JsonView::Str(s)) = member(value@, name@) {
            assert(text_member(value@, name@) == Some(s));
        }
    }
    if call_ensures(Json::array, (value, name), items) {
        if let Some(JsonView::Array(list)) = member(value@, name@) {
            assert(array_member(value@, name@) == Some(list));
        }
    }
}

/// A member that is set is there with its value, in the place of one that had its name, and
/// every other member stays as it is.
pub proof fn a_set_member_is_told(
    object: &mut JsonObject,
    name: String,
    value: Json,
    other: Seq<char>,
)
    requires
        call_ensures(JsonObject::insert, (object, name, value), ()),
        other != name@,
    ensures
        final(object)@.dom().contains(name@),
        final(object)@[name@] == value@,
        final(object)@.dom().contains(other) == old(object)@.dom().contains(other),
        old(object)@.dom().contains(other) ==> final(object)@[other] == old(object)@[other],
{
}

}
