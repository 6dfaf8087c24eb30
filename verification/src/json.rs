//! Structured documents: the payload of a block.
//!
//! A document is a tree of scalars, arrays and maps. The entries of a map
//! are kept in the order in which they were written, but that order carries
//! no meaning: two documents are the same when they bind the same keys to
//! the same documents. The order of an array's items does carry meaning.

use vstd::prelude::*;
use vstd::string::StringExecFns;

verus! {

/// Whether the JSON library reads `text` as a number.
pub uninterp spec fn is_number_literal(text: Seq<char>) -> bool;

/// Calls `serde_json::Number::from_str`, which reads a whole text as one
/// JSON number, and says whether it succeeded. The answer depends on the
/// text alone.
#[verifier::external_body]
fn number_literal_accepted(text: &str) -> (r: bool)
    ensures
        r == is_number_literal(text@),
{
    text.parse::<serde_json::Number>().is_ok()
}

/// A number of a document, held as the text that writes it.
#[derive(Debug, Clone)]
pub struct JsonNumber {
    text: String,
}

impl View for JsonNumber {
    type V = Seq<char>;

    closed spec fn view(&self) -> Seq<char> {
        self.text@
    }
}

impl JsonNumber {
    /// Makes a number of its text, where the JSON library reads the text as
    /// a number.
    pub fn parse(text: &str) -> (r: Option<JsonNumber>)
        ensures
            r is Some <==> is_number_literal(text@),
            r matches Some(n) ==> n@ == text@,
    {
        if number_literal_accepted(text) {
            Some(JsonNumber { text: String::from_str(text) })
        } else {
            None
        }
    }

    /// The text that writes the number.
    pub fn text(&self) -> (r: &str)
        ensures
            r@ == self@,
    {
        self.text.as_str()
    }

    /// Whether two numbers are written alike.
    pub fn equals(&self, other: &JsonNumber) -> (r: bool)
        ensures
            r == (self@ == other@),
    {
        self.text == other.text
    }
}

/// A structured document.
#[derive(Debug)]
pub enum Json {
    Null,
    Bool(bool),
    Number(JsonNumber),
    String(String),
    Array(Vec<Json>),
    /// The entries of a map, in the order in which they were written. Where
    /// a key is written twice, its last entry counts.
    Object(Vec<(String, Json)>),
}

/// Whether some entry has the key.
pub open spec fn binds(entries: Seq<(String, Json)>, key: Seq<char>) -> bool {
    exists|i: int| 0 <= i < entries.len() && (#[trigger] entries[i]).0@ == key
}

/// Whether entry `i` is the one that counts for its key: the last with it.
pub open spec fn is_binding(entries: Seq<(String, Json)>, i: int) -> bool {
    &&& 0 <= i < entries.len()
    &&& forall|j: int| i < j < entries.len() ==> (#[trigger] entries[j]).0@ != entries[i].0@
}

/// A document as the JSON library holds it. It is made and read only
/// where a document is handed to the diff library or taken from it.
#[verifier::external_type_specification]
#[verifier::external_body]
pub struct ExValue(serde_json::Value);

/// Writes a document as a `serde_json::Value`, node for node. A number is
/// read back from its text with `serde_json::Number::from_str`, which
/// accepted that text when the number was made. The entries of a map are
/// inserted in their order, so that the last entry of a key counts.
#[verifier::external_body]
pub(crate) fn to_value(doc: &Json) -> serde_json::Value {
    match doc {
        Json::Null => serde_json::Value::Null,
        Json::Bool(b) => serde_json::Value::Bool(*b),
        Json::Number(n) => {
            n.text.parse().map_or(serde_json::Value::Null, serde_json::Value::Number)
        },
        Json::String(s) => serde_json::Value::String(s.clone()),
        Json::Array(items) => serde_json::Value::Array(items.iter().map(to_value).collect()),
        Json::Object(entries) => serde_json::Value::Object(
            entries.iter().map(|e| (e.0.clone(), to_value(&e.1))).collect(),
        ),
    }
}

/// Reads a `serde_json::Value` as a document, node for node. A number is
/// held as the text that `serde_json` writes for it; the entries of a map
/// come in the order in which `serde_json` walks them.
#[verifier::external_body]
pub(crate) fn from_value(value: &serde_json::Value) -> Json {
    match value {
        serde_json::Value::Null => Json::Null,
        serde_json::Value::Bool(b) => Json::Bool(*b),
        serde_json::Value::Number(n) => Json::Number(JsonNumber { text: n.to_string() }),
        serde_json::Value::String(s) => Json::String(s.clone()),
        serde_json::Value::Array(items) => Json::Array(items.iter().map(from_value).collect()),
        serde_json::Value::Object(map) => Json::Object(
            map.iter().map(|e| (e.0.clone(), from_value(e.1))).collect(),
        ),
    }
}

/// The index of the entry that counts for `key`.
pub fn binding_of(entries: &Vec<(String, Json)>, key: &String) -> (r: Option<usize>)
    ensures
        match r {
            Some(i) => is_binding(entries@, i as int) && entries[i as int].0@ == key@,
            None => !binds(entries@, key@),
        },
{
    let mut i: usize = entries.len();
    while i > 0
        invariant
            i <= entries.len(),
            forall|j: int| i <= j < entries.len() ==> (#[trigger] entries[j]).0@ != key@,
        decreases i,
    {
        i -= 1;
        if entries[i].0 == *key {
            return Some(i);
        }
    }
    None
}

/// Arrays are the same when they hold the same documents in the same order.
pub open spec fn same_items(a: Seq<Json>, b: Seq<Json>) -> bool
    decreases a,
{
    &&& a.len() == b.len()
    &&& (forall|i: int| 0 <= i < a.len() ==> (#[trigger] a[i]).same(b[i]))
}

/// Maps are the same when each key that one binds the other binds too, and
/// to the same document.
pub open spec fn same_entries(a: Seq<(String, Json)>, b: Seq<(String, Json)>) -> bool
    decreases a,
{
    &&& (forall|i: int| 0 <= i < a.len() ==> binds(b, (#[trigger] a[i]).0@))
    &&& (forall|j: int| 0 <= j < b.len() ==> binds(a, (#[trigger] b[j]).0@))
    &&& (forall|i: int, j: int|
        is_binding(a, i) && is_binding(b, j) && (#[trigger] a[i]).0@ == (#[trigger] b[j]).0@
            ==> a[i].1.same(b[j].1))
}

impl Json {
    /// Structural equality: the same scalars, the same items in the same
    /// order, the same keys bound to the same documents in whatever order.
    pub open spec fn same(self, other: Json) -> bool
        decreases self,
    {
        match (self, other) {
            (Json::Null, Json::Null) => true,
            (Json::Bool(a), Json::Bool(b)) => a == b,
            (Json::Number(a), Json::Number(b)) => a@ == b@,
            (Json::String(a), Json::String(b)) => a@ == b@,
            (Json::Array(a), Json::Array(b)) => same_items(a@, b@),
            (Json::Object(a), Json::Object(b)) => same_entries(a@, b@),
            _ => false,
        }
    }

    /// Whether two documents are structurally equal.
    pub fn equals(&self, other: &Json) -> (r: bool)
        ensures
            r == self.same(*other),
        decreases self,
    {
        match (self, other) {
            (Json::Null, Json::Null) => true,
            (Json::Bool(a), Json::Bool(b)) => *a == *b,
            (Json::Number(a), Json::Number(b)) => a.equals(b),
            (Json::String(a), Json::String(b)) => *a == *b,
            (Json::Array(a), Json::Array(b)) => arrays_equal(a, b),
            (Json::Object(a), Json::Object(b)) => objects_equal(a, b),
            _ => false,
        }
    }
}

fn arrays_equal(a: &Vec<Json>, b: &Vec<Json>) -> (r: bool)
    ensures
        r == same_items(a@, b@),
    decreases a,
{
    if a.len() != b.len() {
        return false;
    }
    let mut i: usize = 0;
    while i < a.len()
        invariant
            i <= a.len(),
            a.len() == b.len(),
            forall|k: int| 0 <= k < i ==> (#[trigger] a[k]).same(b[k]),
        decreases a.len() - i,
    {
        if !a[i].equals(&b[i]) {
            return false;
        }
        i += 1;
    }
    true
}

fn objects_equal(a: &Vec<(String, Json)>, b: &Vec<(String, Json)>) -> (r: bool)
    ensures
        r == same_entries(a@, b@),
    decreases a,
{
    let mut i: usize = 0;
    while i < a.len()
        invariant
            i <= a.len(),
            forall|k: int| 0 <= k < i ==> binds(b@, (#[trigger] a[k]).0@),
            forall|k: int, j: int|
                0 <= k < i && is_binding(a@, k) && is_binding(b@, j) && (#[trigger] a[k]).0@ == (
                #[trigger] b[j]).0@ ==> a[k].1.same(b[j].1),
        decreases a.len() - i,
    {
        match binding_of(b, &a[i].0) {
            None => {
                assert(!binds(b@, (*a)[i as int].0@));
                return false;
            },
            Some(j) => {
                if binding_of(a, &a[i].0) == Some(i) {
                    if !a[i].1.equals(&b[j].1) {
                        assert((*a)[i as int].0@ == (*b)[j as int].0@);
                        return false;
                    }
                } else {
                    assert(!is_binding(a@, i as int));
                }
            },
        }
        i += 1;
    }
    let mut j: usize = 0;
    while j < b.len()
        invariant
            j <= b.len(),
            forall|k: int| 0 <= k < j ==> binds(a@, (#[trigger] b[k]).0@),
        decreases b.len() - j,
    {
        if binding_of(a, &b[j].0).is_none() {
            assert(!binds(a@, (*b)[j as int].0@));
            return false;
        }
        j += 1;
    }
    true
}

} // verus!


verus! {

/// A key that some entry has is bound by the last entry that has it.
pub proof fn lemma_binding_exists(entries: Seq<(String, Json)>, key: Seq<char>)
    requires
        binds(entries, key),
    ensures
        exists|i: int| is_binding(entries, i) && (#[trigger] entries[i]).0@ == key,
    decreases entries.len(),
{
    let last = entries.len() - 1;
    if entries[last].0@ == key {
        assert(is_binding(entries, last));
    } else {
        let front = entries.drop_last();
        let w = choose|i: int| 0 <= i < entries.len() && (#[trigger] entries[i]).0@ == key;
        assert(front[w] == entries[w]);
        lemma_binding_exists(front, key);
        let i = choose|i: int| is_binding(front, i) && (#[trigger] front[i]).0@ == key;
        assert(entries[i] == front[i]);
        assert forall|j: int| i < j < entries.len() implies (#[trigger] entries[j]).0@
            != entries[i].0@ by {
            if j < last {
                assert(front[j] == entries[j]);
            }
        }
        assert(is_binding(entries, i));
    }
}

/// Every document is the same as itself.
pub proof fn lemma_same_reflexive(doc: Json)
    ensures
        doc.same(doc),
    decreases doc,
{
    match doc {
        Json::Array(items) => {
            assert forall|i: int| 0 <= i < items@.len() implies (#[trigger] items@[i]).same(
                items@[i],
            ) by {
                lemma_same_reflexive(items@[i]);
            }
            assert(same_items(items@, items@));
        },
        Json::Object(entries) => {
            let a = entries@;
            assert forall|i: int, j: int|
                is_binding(a, i) && is_binding(a, j) && (#[trigger] a[i]).0@ == (
                #[trigger] a[j]).0@ implies a[i].1.same(a[j].1) by {
                assert(i == j);
                lemma_same_reflexive(a[i].1);
            }
            assert(same_entries(a, a));
        },
        _ => {},
    }
}

/// Where one document is the same as another, the other is the same as it.
pub proof fn lemma_same_symmetric(a: Json, b: Json)
    requires
        a.same(b),
    ensures
        b.same(a),
    decreases a, 1nat,
{
    match a {
        Json::Array(x) => {
            lemma_same_items_symmetric(x@, b->Array_0@);
        },
        Json::Object(x) => {
            lemma_same_entries_symmetric(x@, b->Object_0@);
        },
        _ => {},
    }
}

proof fn lemma_same_items_symmetric(x: Seq<Json>, y: Seq<Json>)
    requires
        same_items(x, y),
    ensures
        same_items(y, x),
    decreases x, 0nat,
{
    assert forall|i: int| 0 <= i < y.len() implies (#[trigger] y[i]).same(x[i]) by {
        assert(x[i].same(y[i]));
        lemma_same_symmetric(x[i], y[i]);
    }
}

proof fn lemma_same_entries_symmetric(x: Seq<(String, Json)>, y: Seq<(String, Json)>)
    requires
        same_entries(x, y),
    ensures
        same_entries(y, x),
    decreases x, 0nat,
{
    assert forall|j: int, i: int|
        is_binding(y, j) && is_binding(x, i) && (#[trigger] y[j]).0@ == (
        #[trigger] x[i]).0@ implies y[j].1.same(x[i].1) by {
        assert(x[i].1.same(y[j].1));
        lemma_same_symmetric(x[i].1, y[j].1);
    }
}

/// Documents that are the same as a third are the same as each other.
pub proof fn lemma_same_transitive(a: Json, b: Json, c: Json)
    requires
        a.same(b),
        b.same(c),
    ensures
        a.same(c),
    decreases a, 1nat,
{
    match a {
        Json::Array(x) => {
            lemma_same_items_transitive(x@, b->Array_0@, c->Array_0@);
        },
        Json::Object(x) => {
            lemma_same_entries_transitive(x@, b->Object_0@, c->Object_0@);
        },
        _ => {},
    }
}

proof fn lemma_same_items_transitive(x: Seq<Json>, y: Seq<Json>, z: Seq<Json>)
    requires
        same_items(x, y),
        same_items(y, z),
    ensures
        same_items(x, z),
    decreases x, 0nat,
{
    assert forall|i: int| 0 <= i < x.len() implies (#[trigger] x[i]).same(z[i]) by {
        assert(x[i].same(y[i]));
        assert(y[i].same(z[i]));
        lemma_same_transitive(x[i], y[i], z[i]);
    }
}

proof fn lemma_same_entries_transitive(
    x: Seq<(String, Json)>,
    y: Seq<(String, Json)>,
    z: Seq<(String, Json)>,
)
    requires
        same_entries(x, y),
        same_entries(y, z),
    ensures
        same_entries(x, z),
    decreases x, 0nat,
{
    assert forall|i: int| 0 <= i < x.len() implies binds(z, (#[trigger] x[i]).0@) by {
        assert(binds(y, x[i].0@));
        let j = choose|j: int| 0 <= j < y.len() && (#[trigger] y[j]).0@ == x[i].0@;
        assert(binds(z, y[j].0@));
    }
    assert forall|k: int| 0 <= k < z.len() implies binds(x, (#[trigger] z[k]).0@) by {
        assert(binds(y, z[k].0@));
        let j = choose|j: int| 0 <= j < y.len() && (#[trigger] y[j]).0@ == z[k].0@;
        assert(binds(x, y[j].0@));
    }
    assert forall|i: int, k: int|
        is_binding(x, i) && is_binding(z, k) && (#[trigger] x[i]).0@ == (
        #[trigger] z[k]).0@ implies x[i].1.same(z[k].1) by {
        assert(binds(y, x[i].0@));
        lemma_binding_exists(y, x[i].0@);
        let j = choose|j: int| is_binding(y, j) && (#[trigger] y[j]).0@ == x[i].0@;
        assert(x[i].1.same(y[j].1));
        assert(y[j].1.same(z[k].1));
        lemma_same_transitive(x[i].1, y[j].1, z[k].1);
    }
}

/// The order of a map's entries carries no meaning: two maps are the same
/// where each binds the keys of the other, and to identical documents.
pub proof fn lemma_same_in_any_order(a: Seq<(String, Json)>, b: Seq<(String, Json)>)
    requires
        forall|i: int|
            is_binding(a, i) ==> exists|j: int|
                is_binding(b, j) && (#[trigger] b[j]).0@ == (#[trigger] a[i]).0@ && b[j].1
                    == a[i].1,
        forall|j: int|
            is_binding(b, j) ==> exists|i: int|
                is_binding(a, i) && (#[trigger] a[i]).0@ == (#[trigger] b[j]).0@,
    ensures
        same_entries(a, b),
{
    assert forall|i: int| 0 <= i < a.len() implies binds(b, (#[trigger] a[i]).0@) by {
        assert(binds(a, a[i].0@));
        lemma_binding_exists(a, a[i].0@);
        let i2 = choose|k: int| is_binding(a, k) && (#[trigger] a[k]).0@ == a[i].0@;
        let j = choose|j: int|
            is_binding(b, j) && (#[trigger] b[j]).0@ == a[i2].0@ && b[j].1 == a[i2].1;
        assert(b[j].0@ == a[i].0@);
    }
    assert forall|j: int| 0 <= j < b.len() implies binds(a, (#[trigger] b[j]).0@) by {
        assert(binds(b, b[j].0@));
        lemma_binding_exists(b, b[j].0@);
        let j2 = choose|k: int| is_binding(b, k) && (#[trigger] b[k]).0@ == b[j].0@;
        let i = choose|i: int| is_binding(a, i) && (#[trigger] a[i]).0@ == b[j2].0@;
        assert(a[i].0@ == b[j].0@);
    }
    assert forall|i: int, j: int|
        is_binding(a, i) && is_binding(b, j) && (#[trigger] a[i]).0@ == (
        #[trigger] b[j]).0@ implies a[i].1.same(b[j].1) by {
        let j2 = choose|k: int|
            is_binding(b, k) && (#[trigger] b[k]).0@ == a[i].0@ && b[k].1 == a[i].1;
        assert(j2 == j);
        lemma_same_reflexive(a[i].1);
    }
}

/// A key that is added to a map, or removed from it, makes another map.
pub proof fn lemma_added_key_differs(entries: Seq<(String, Json)>, added: (String, Json))
    requires
        !binds(entries, added.0@),
    ensures
        !same_entries(entries, entries.push(added)),
        !same_entries(entries.push(added), entries),
{
    let more = entries.push(added);
    assert(more[entries.len() as int] == added);
}

/// An item that is changed makes another array.
pub proof fn lemma_changed_item_differs(items: Seq<Json>, at: int, other: Json)
    requires
        0 <= at < items.len(),
        !items[at].same(other),
    ensures
        !same_items(items, items.update(at, other)),
{
    assert(items.update(at, other)[at] == other);
}

/// Two different items that change places make another array.
pub proof fn lemma_reordered_items_differ(first: Json, second: Json)
    requires
        !first.same(second),
    ensures
        !same_items(seq![first, second], seq![second, first]),
{
    assert(seq![first, second][0] == first);
    assert(seq![second, first][0] == second);
}

} // verus!
