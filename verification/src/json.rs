use crate::assoc::{
    assoc_map, lemma_assoc_dom, lemma_assoc_last, lemma_assoc_push, lemma_assoc_remove,
    lemma_assoc_update,
};
use crate::text::str_eq;
use vstd::prelude::*;

verus! {

/// A JSON number: an integer that sixty-four bits hold, or the decimal text of
/// any other finite number.
#[derive(Debug)]
pub enum JsonNumber {
    /// A non-negative integer.
    PosInt(u64),
    /// A negative integer.
    NegInt(i64),
    /// A number with a fraction or an exponent, as its decimal text.
    Float(String),
}

/// The members of a JSON object, in the order in which they were added. A
/// later member replaces an earlier one of the same name.
#[derive(Debug)]
pub struct JsonObject {
    pub members: Vec<(String, Json)>,
}

/// A JSON document.
#[derive(Debug)]
pub enum Json {
    Null,
    Bool(bool),
    Number(JsonNumber),
    String(String),
    Array(Vec<Json>),
    Object(JsonObject),
}

/// The mathematical value of a number.
pub enum NumberValue {
    PosInt(u64),
    NegInt(i64),
    Float(Seq<char>),
}

/// The mathematical value of a document: an object is a map from member names
/// to values.
pub enum JsonValue {
    Null,
    Bool(bool),
    Number(NumberValue),
    String(Seq<char>),
    Array(Seq<JsonValue>),
    Object(Map<Seq<char>, JsonValue>),
}

/// Whether a decimal text is that of zero with a fraction, of either sign.
pub open spec fn zero_text(text: Seq<char>) -> bool {
    text == "0.0"@ || text == "-0.0"@
}

impl NumberValue {
    /// Whether two numbers are the same: two integers of the same value, or
    /// two numbers of the same decimal text. The two zeros with a fraction are
    /// the same number.
    pub open spec fn same(self, other: NumberValue) -> bool {
        match (self, other) {
            (NumberValue::Float(a), NumberValue::Float(b)) => a == b || (zero_text(a) && zero_text(
                b,
            )),
            _ => self == other,
        }
    }
}

impl JsonValue {
    /// The empty object.
    pub open spec fn empty_object() -> JsonValue {
        JsonValue::Object(Map::empty())
    }

    /// Whether two values are the same: of the same kind, with the same
    /// number, the same text, the same items in the same order, or the same
    /// members.
    pub open spec fn same(self, other: JsonValue) -> bool
        decreases self,
    {
        match (self, other) {
            (JsonValue::Number(a), JsonValue::Number(b)) => a.same(b),
            (JsonValue::Array(a), JsonValue::Array(b)) => a.len() == b.len() && forall|i: int|
                0 <= i < a.len() ==> (#[trigger] a[i]).same(b[i]),
            (JsonValue::Object(a), JsonValue::Object(b)) => a.dom() =~= b.dom() && forall|
                k: Seq<char>,
            |
                a.dom().contains(k) ==> (#[trigger] a[k]).same(b[k]),
            _ => self == other,
        }
    }

    /// Sameness goes both ways.
    pub proof fn lemma_same_symmetric(self, other: JsonValue)
        requires
            self.same(other),
        ensures
            other.same(self),
        decreases self,
    {
        match (self, other) {
            (JsonValue::Array(a), JsonValue::Array(b)) => {
                assert forall|i: int| 0 <= i < b.len() implies (#[trigger] b[i]).same(a[i]) by {
                    assert(a[i].same(b[i]));
                    a[i].lemma_same_symmetric(b[i]);
                }
            },
            (JsonValue::Object(a), JsonValue::Object(b)) => {
                assert forall|k: Seq<char>| b.dom().contains(k) implies (#[trigger] b[k]).same(
                    a[k],
                ) by {
                    assert(a[k].same(b[k]));
                    a[k].lemma_same_symmetric(b[k]);
                }
            },
            _ => {},
        }
    }

    /// Two values that are the same as a third are the same.
    pub proof fn lemma_same_transitive(self, middle: JsonValue, other: JsonValue)
        requires
            self.same(middle),
            middle.same(other),
        ensures
            self.same(other),
        decreases self,
    {
        match (self, middle, other) {
            (JsonValue::Array(a), JsonValue::Array(m), JsonValue::Array(b)) => {
                assert forall|i: int| 0 <= i < a.len() implies (#[trigger] a[i]).same(b[i]) by {
                    assert(m[i].same(b[i]));
                    a[i].lemma_same_transitive(m[i], b[i]);
                }
            },
            (JsonValue::Object(a), JsonValue::Object(m), JsonValue::Object(b)) => {
                assert forall|k: Seq<char>| a.dom().contains(k) implies (#[trigger] a[k]).same(
                    b[k],
                ) by {
                    assert(m[k].same(b[k]));
                    a[k].lemma_same_transitive(m[k], b[k]);
                }
            },
            _ => {},
        }
    }

    /// Every value is the same as itself.
    pub proof fn lemma_same_reflexive(self)
        ensures
            self.same(self),
        decreases self,
    {
        match self {
            JsonValue::Array(items) => {
                assert forall|i: int| 0 <= i < items.len() implies (#[trigger] items[i]).same(
                    items[i],
                ) by {
                    items[i].lemma_same_reflexive();
                }
            },
            JsonValue::Object(members) => {
                assert forall|k: Seq<char>| members.dom().contains(k) implies (
                #[trigger] members[k]).same(members[k]) by {
                    members[k].lemma_same_reflexive();
                }
            },
            _ => {},
        }
    }
}

/// The values of the first `n` items of an array.
pub open spec fn items_view(items: Vec<Json>, n: nat) -> Seq<JsonValue>
    decreases items, n,
{
    if n == 0 || n > items.len() {
        Seq::empty()
    } else {
        items_view(items, (n - 1) as nat).push(json_view(items[n - 1]))
    }
}

/// The names and values of the first `n` members of an object.
pub open spec fn entries_view(members: Vec<(String, Json)>, n: nat) -> Seq<(Seq<char>, JsonValue)>
    decreases members, n,
{
    if n == 0 || n > members.len() {
        Seq::empty()
    } else {
        entries_view(members, (n - 1) as nat).push((members[n - 1].0@, json_view(members[n - 1].1)))
    }
}

/// The value of a document.
pub open spec fn json_view(value: Json) -> JsonValue
    decreases value, 0nat,
{
    match value {
        Json::Null => JsonValue::Null,
        Json::Bool(b) => JsonValue::Bool(b),
        Json::Number(n) => JsonValue::Number(n@),
        Json::String(s) => JsonValue::String(s@),
        Json::Array(items) => JsonValue::Array(items_view(items, items.len() as nat)),
        Json::Object(object) => JsonValue::Object(
            assoc_map(entries_view(object.members, object.members.len() as nat)),
        ),
    }
}

impl View for JsonNumber {
    type V = NumberValue;

    open spec fn view(&self) -> NumberValue {
        match self {
            JsonNumber::PosInt(n) => NumberValue::PosInt(*n),
            JsonNumber::NegInt(n) => NumberValue::NegInt(*n),
            JsonNumber::Float(text) => NumberValue::Float(text@),
        }
    }
}

impl View for JsonObject {
    type V = Map<Seq<char>, JsonValue>;

    open spec fn view(&self) -> Map<Seq<char>, JsonValue> {
        self.prefix(self.members.len() as nat)
    }
}

impl View for Json {
    type V = JsonValue;

    open spec fn view(&self) -> JsonValue {
        json_view(*self)
    }
}

/// The first `n` items of an array have `n` values, one for each item.
pub proof fn lemma_items_view(items: Vec<Json>, n: nat)
    requires
        n <= items.len(),
    ensures
        items_view(items, n).len() == n,
        forall|i: int| 0 <= i < n ==> (#[trigger] items_view(items, n)[i]) == items[i]@,
    decreases n,
{
    if n > 0 {
        lemma_items_view(items, (n - 1) as nat);
    }
}

/// The first `n` members of an object have `n` entries, one for each member.
pub proof fn lemma_entries_view(members: Vec<(String, Json)>, n: nat)
    requires
        n <= members.len(),
    ensures
        entries_view(members, n).len() == n,
        forall|i: int|
            0 <= i < n ==> (#[trigger] entries_view(members, n)[i]) == (members[i].0@, members[i].1@),
    decreases n,
{
    if n > 0 {
        lemma_entries_view(members, (n - 1) as nat);
    }
}

impl JsonObject {
    /// The map that the first `n` members spell out.
    pub open spec fn prefix(&self, n: nat) -> Map<Seq<char>, JsonValue> {
        assoc_map(entries_view(self.members, n))
    }

    /// Member `n` sets its name to its value in the map of the members before
    /// it.
    pub proof fn lemma_prefix_step(&self, n: nat)
        requires
            n < self.members.len(),
        ensures
            self.prefix(n + 1) == self.prefix(n).insert(
                self.members[n as int].0@,
                self.members[n as int].1@,
            ),
            self.prefix(0) == Map::<Seq<char>, JsonValue>::empty(),
    {
        lemma_assoc_push(
            entries_view(self.members, n),
            self.members[n as int].0@,
            self.members[n as int].1@,
        );
    }

    /// An object without members.
    pub fn new() -> (r: JsonObject)
        ensures
            r@ == Map::<Seq<char>, JsonValue>::empty(),
            r.members@.len() == 0,
    {
        JsonObject { members: Vec::new() }
    }

    /// The number of members held, replaced ones included.
    pub fn len(&self) -> (r: usize)
        ensures
            r == self.members@.len(),
    {
        self.members.len()
    }

    /// The place of the last member named `key`.
    pub fn position(&self, key: &str) -> (r: Option<usize>)
        ensures
            match r {
                Some(i) => {
                    &&& i < self.members@.len()
                    &&& self.members@[i as int].0@ == key@
                    &&& forall|j: int|
                        i < j < self.members@.len() ==> (#[trigger] self.members@[j]).0@ != key@
                    &&& self@.dom().contains(key@)
                    &&& self@[key@] == self.members@[i as int].1@
                },
                None => {
                    &&& forall|j: int|
                        0 <= j < self.members@.len() ==> (#[trigger] self.members@[j]).0@ != key@
                    &&& !self@.dom().contains(key@)
                },
            },
    {
        let ghost entries = entries_view(self.members, self.members.len() as nat);
        proof {
            lemma_entries_view(self.members, self.members.len() as nat);
            lemma_assoc_dom(entries, key@);
        }
        let mut i: usize = self.members.len();
        while i > 0
            invariant
                i <= self.members@.len(),
                entries == entries_view(self.members, self.members.len() as nat),
                forall|j: int|
                    i <= j < self.members@.len() ==> (#[trigger] self.members@[j]).0@ != key@,
            decreases i,
        {
            i -= 1;
            if str_eq(self.members[i].0.as_str(), key) {
                proof {
                    lemma_entries_view(self.members, self.members.len() as nat);
                    assert forall|j: int| i < j < entries.len() implies (#[trigger] entries[j]).0
                        != entries[i as int].0 by {
                        assert(self.members@[j].0@ != key@);
                    }
                    lemma_assoc_last(entries, i as int);
                }
                return Some(i);
            }
        }
        proof {
            if self@.dom().contains(key@) {
                let j = choose|j: int| 0 <= j < entries.len() && (#[trigger] entries[j]).0 == key@;
                assert(self.members@[j].0@ == key@);
            }
        }
        None
    }

    /// Whether a member is named `key`.
    pub fn contains_key(&self, key: &str) -> (r: bool)
        ensures
            r == self@.dom().contains(key@),
    {
        self.position(key).is_some()
    }

    /// The value of the member named `key`.
    pub fn get(&self, key: &str) -> (r: Option<&Json>)
        ensures
            match r {
                Some(value) => self@.dom().contains(key@) && self@[key@] == value@,
                None => !self@.dom().contains(key@),
            },
    {
        match self.position(key) {
            Some(i) => Some(&self.members[i].1),
            None => None,
        }
    }

    /// Sets the member named `key` to `value`, adding it if there is none.
    pub fn insert(&mut self, key: String, value: Json)
        ensures
            final(self)@ == old(self)@.insert(key@, value@),
    {
        let ghost before = entries_view(self.members, self.members.len() as nat);
        proof {
            lemma_entries_view(self.members, self.members.len() as nat);
        }
        match self.position(key.as_str()) {
            Some(i) => {
                self.members.set(i, (key, value));
                proof {
                    lemma_entries_view(self.members, self.members.len() as nat);
                    assert forall|j: int| i < j < before.len() implies (#[trigger] before[j]).0
                        != before[i as int].0 by {
                        assert(old(self).members@[j].0@ != key@);
                    }
                    lemma_assoc_update(before, i as int, value@);
                    assert(entries_view(self.members, self.members.len() as nat) =~= before.update(
                        i as int,
                        (key@, value@),
                    ));
                }
            },
            None => {
                self.members.push((key, value));
                proof {
                    lemma_entries_view(self.members, self.members.len() as nat);
                    lemma_assoc_push(before, key@, value@);
                    assert(entries_view(self.members, self.members.len() as nat) =~= before.push(
                        (key@, value@),
                    ));
                }
            },
        }
    }

    /// Takes out every member named `key`.
    pub fn remove(&mut self, key: &str)
        ensures
            final(self)@ == old(self)@.remove(key@),
    {
        loop
            invariant
                self@.remove(key@) == old(self)@.remove(key@),
            ensures
                self@ == old(self)@.remove(key@),
            decreases self.members@.len(),
        {
            match self.position(key) {
                Some(i) => {
                    let ghost before = entries_view(self.members, self.members.len() as nat);
                    proof {
                        lemma_entries_view(self.members, self.members.len() as nat);
                    }
                    let _gone = self.members.remove(i);
                    proof {
                        lemma_entries_view(self.members, self.members.len() as nat);
                        lemma_assoc_remove(before, i as int);
                        assert(entries_view(self.members, self.members.len() as nat)
                            =~= before.remove(i as int));
                    }
                },
                None => {
                    assert(self@.remove(key@) =~= self@);
                    break ;
                },
            }
        }
    }
}


/// Whether a decimal text is that of zero with a fraction, of either sign.
fn is_zero_text(text: &str) -> (r: bool)
    ensures
        r == zero_text(text@),
{
    str_eq(text, "0.0") || str_eq(text, "-0.0")
}

impl JsonNumber {
    /// The number that is known as an unsigned integer, as a signed one, or
    /// else by its decimal text alone.
    pub fn from_parts(unsigned: Option<u64>, signed: Option<i64>, text: String) -> (r: JsonNumber)
        ensures
            r@ == match (unsigned, signed) {
                (Some(n), _) => NumberValue::PosInt(n),
                (None, Some(n)) => NumberValue::NegInt(n),
                (None, None) => NumberValue::Float(text@),
            },
    {
        match (unsigned, signed) {
            (Some(n), _) => JsonNumber::PosInt(n),
            (None, Some(n)) => JsonNumber::NegInt(n),
            (None, None) => JsonNumber::Float(text),
        }
    }

    /// Whether two numbers are the same.
    pub fn same(&self, other: &JsonNumber) -> (r: bool)
        ensures
            r == self@.same(other@),
    {
        match (self, other) {
            (JsonNumber::PosInt(a), JsonNumber::PosInt(b)) => *a == *b,
            (JsonNumber::NegInt(a), JsonNumber::NegInt(b)) => *a == *b,
            (JsonNumber::Float(a), JsonNumber::Float(b)) => str_eq(a.as_str(), b.as_str()) || (
            is_zero_text(a.as_str()) && is_zero_text(b.as_str())),
            _ => false,
        }
    }
}

impl Clone for JsonNumber {
    fn clone(&self) -> (r: JsonNumber)
        ensures
            r@ == self@,
    {
        match self {
            JsonNumber::PosInt(n) => JsonNumber::PosInt(*n),
            JsonNumber::NegInt(n) => JsonNumber::NegInt(*n),
            JsonNumber::Float(text) => JsonNumber::Float(text.clone()),
        }
    }
}

impl JsonObject {
    /// Whether every member of this object has the same value in `other`.
    pub fn covered_by(&self, other: &JsonObject) -> (r: bool)
        ensures
            r == (forall|k: Seq<char>| #[trigger]
                self@.dom().contains(k) ==> other@.dom().contains(k) && self@[k].same(other@[k])),
        decreases self, 0nat,
    {
        let ghost entries = entries_view(self.members, self.members.len() as nat);
        proof {
            lemma_entries_view(self.members, self.members.len() as nat);
        }
        let mut i: usize = 0;
        while i < self.members.len()
            invariant
                i <= self.members@.len(),
                entries == entries_view(self.members, self.members.len() as nat),
                forall|j: int|
                    0 <= j < i ==> {
                        let k = (#[trigger] self.members@[j]).0@;
                        other@.dom().contains(k) && self@[k].same(other@[k])
                    },
            decreases self.members@.len() - i,
        {
            let key = self.members[i].0.as_str();
            proof {
                lemma_entries_view(self.members, self.members.len() as nat);
                lemma_assoc_dom(entries, key@);
                assert(entries[i as int].0 == key@);
            }
            let found = match (self.position(key), other.get(key)) {
                (Some(p), Some(theirs)) => self.members[p].1.same(theirs),
                _ => false,
            };
            if !found {
                return false;
            }
            i += 1;
        }
        proof {
            assert forall|k: Seq<char>| #[trigger] self@.dom().contains(k) implies other@.dom().contains(
                k,
            ) && self@[k].same(other@[k]) by {
                lemma_assoc_dom(entries, k);
                let j = choose|j: int| 0 <= j < entries.len() && (#[trigger] entries[j]).0 == k;
                assert(self.members@[j].0@ == k);
            }
        }
        true
    }

    /// Whether every name of this object is a name of `other`.
    pub fn keys_within(&self, other: &JsonObject) -> (r: bool)
        ensures
            r == self@.dom().subset_of(other@.dom()),
    {
        let ghost entries = entries_view(self.members, self.members.len() as nat);
        proof {
            lemma_entries_view(self.members, self.members.len() as nat);
        }
        let mut i: usize = 0;
        while i < self.members.len()
            invariant
                i <= self.members@.len(),
                entries == entries_view(self.members, self.members.len() as nat),
                forall|j: int|
                    0 <= j < i ==> other@.dom().contains((#[trigger] self.members@[j]).0@),
            decreases self.members@.len() - i,
        {
            let key = self.members[i].0.as_str();
            if !other.contains_key(key) {
                proof {
                    lemma_entries_view(self.members, self.members.len() as nat);
                    lemma_assoc_dom(entries, key@);
                    assert(entries[i as int].0 == key@);
                }
                return false;
            }
            i += 1;
        }
        proof {
            assert forall|k: Seq<char>| self@.dom().contains(k) implies other@.dom().contains(k) by {
                lemma_assoc_dom(entries, k);
                let j = choose|j: int| 0 <= j < entries.len() && (#[trigger] entries[j]).0 == k;
                assert(self.members@[j].0@ == k);
            }
        }
        true
    }

    /// Whether two objects have the same members with the same values.
    pub fn same(&self, other: &JsonObject) -> (r: bool)
        ensures
            r == JsonValue::Object(self@).same(JsonValue::Object(other@)),
        decreases self, 1nat,
    {
        let r = self.covered_by(other) && other.keys_within(self);
        proof {
            if r {
                assert(self@.dom() =~= other@.dom());
            }
        }
        r
    }
}

impl Clone for JsonObject {
    fn clone(&self) -> (r: JsonObject)
        ensures
            r@ == self@,
        decreases self,
    {
        let mut members: Vec<(String, Json)> = Vec::new();
        let mut i: usize = 0;
        while i < self.members.len()
            invariant
                i <= self.members@.len(),
                members@.len() == i,
                forall|j: int|
                    0 <= j < i ==> (#[trigger] members@[j]).0@ == self.members@[j].0@
                        && members@[j].1@ == self.members@[j].1@,
            decreases self.members@.len() - i,
        {
            let name = self.members[i].0.clone();
            let value = self.members[i].1.clone();
            members.push((name, value));
            i += 1;
        }
        proof {
            lemma_entries_view(members, members.len() as nat);
            lemma_entries_view(self.members, self.members.len() as nat);
            assert(entries_view(members, members.len() as nat) =~= entries_view(
                self.members,
                self.members.len() as nat,
            ));
        }
        JsonObject { members }
    }
}

/// Whether two arrays have the same values in the same order.
fn same_items(a: &Vec<Json>, b: &Vec<Json>) -> (r: bool)
    ensures
        r == JsonValue::Array(items_view(*a, a.len() as nat)).same(
            JsonValue::Array(items_view(*b, b.len() as nat)),
        ),
    decreases a, 0nat,
{
    let ghost x = items_view(*a, a.len() as nat);
    let ghost y = items_view(*b, b.len() as nat);
    proof {
        lemma_items_view(*a, a.len() as nat);
        lemma_items_view(*b, b.len() as nat);
    }
    if a.len() != b.len() {
        return false;
    }
    let mut i: usize = 0;
    while i < a.len()
        invariant
            i <= a@.len(),
            a@.len() == b@.len(),
            x == items_view(*a, a.len() as nat),
            y == items_view(*b, b.len() as nat),
            x.len() == a@.len(),
            y.len() == b@.len(),
            forall|j: int| 0 <= j < x.len() ==> (#[trigger] x[j]) == a@[j]@,
            forall|j: int| 0 <= j < y.len() ==> (#[trigger] y[j]) == b@[j]@,
            forall|j: int| 0 <= j < i ==> (#[trigger] x[j]).same(y[j]),
        decreases a@.len() - i,
    {
        if !a[i].same(&b[i]) {
            assert(!x[i as int].same(y[i as int]));
            return false;
        }
        i += 1;
    }
    true
}

/// A copy of an array.
fn clone_items(items: &Vec<Json>) -> (r: Vec<Json>)
    ensures
        items_view(r, r.len() as nat) == items_view(*items, items.len() as nat),
    decreases items,
{
    let mut copies: Vec<Json> = Vec::new();
    let mut i: usize = 0;
    while i < items.len()
        invariant
            i <= items@.len(),
            copies@.len() == i,
            forall|j: int| 0 <= j < i ==> (#[trigger] copies@[j])@ == items@[j]@,
        decreases items@.len() - i,
    {
        copies.push(items[i].clone());
        i += 1;
    }
    proof {
        lemma_items_view(copies, copies.len() as nat);
        lemma_items_view(*items, items.len() as nat);
        assert(items_view(copies, copies.len() as nat) =~= items_view(*items, items.len() as nat));
    }
    copies
}

impl Json {
    /// The object without members.
    pub fn empty_object() -> (r: Json)
        ensures
            r@ == JsonValue::empty_object(),
    {
        Json::Object(JsonObject::new())
    }

    /// Whether two documents have the same value. The order of an object's
    /// members does not count.
    pub fn same(&self, other: &Json) -> (r: bool)
        ensures
            r == self@.same(other@),
        decreases self, 0nat,
    {
        match (self, other) {
            (Json::Null, Json::Null) => true,
            (Json::Bool(a), Json::Bool(b)) => *a == *b,
            (Json::Number(a), Json::Number(b)) => a.same(b),
            (Json::String(a), Json::String(b)) => str_eq(a.as_str(), b.as_str()),
            (Json::Array(a), Json::Array(b)) => same_items(a, b),
            (Json::Object(a), Json::Object(b)) => a.same(b),
            _ => false,
        }
    }
}

impl Clone for Json {
    fn clone(&self) -> (r: Json)
        ensures
            r@ == self@,
        decreases self,
    {
        match self {
            Json::Null => Json::Null,
            Json::Bool(b) => Json::Bool(*b),
            Json::Number(n) => Json::Number(n.clone()),
            Json::String(s) => Json::String(s.clone()),
            Json::Array(items) => Json::Array(clone_items(items)),
            Json::Object(object) => Json::Object(object.clone()),
        }
    }
}

impl PartialEq for Json {
    fn eq(&self, other: &Json) -> (r: bool) {
        self.same(other)
    }
}

impl vstd::std_specs::cmp::PartialEqSpecImpl for Json {
    open spec fn obeys_eq_spec() -> bool {
        true
    }

    open spec fn eq_spec(&self, other: &Json) -> bool {
        self@.same(other@)
    }
}

} // verus!
