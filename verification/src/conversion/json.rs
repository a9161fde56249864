//! JSON values: a model of their content, and objects with one value per key.

use vstd::prelude::*;
use vstd::string::*;

verus! {

/// A JSON number: an unsigned or a negative integer, or a double held by its
/// IEEE-754 bit pattern.
#[derive(Clone, Copy, Debug, PartialEq, Eq, Structural)]
pub enum JsonNumber {
    PosInt(u64),
    NegInt(i64),
    Float(u64),
}

/// A JSON value.
pub enum JsonValue {
    Null,
    Bool(bool),
    Number(JsonNumber),
    String(String),
    Array(Vec<JsonValue>),
    Object(JsonDict),
}

/// A JSON object: values under pairwise distinct keys.
pub struct JsonDict {
    keys: Vec<String>,
    values: Vec<JsonValue>,
}

/// The mathematical content of a [`JsonValue`].
pub enum JsonModel {
    Null,
    Bool(bool),
    Number(JsonNumber),
    String(Seq<char>),
    Array(Seq<JsonModel>),
    Object(Map<Seq<char>, JsonModel>),
}

impl JsonValue {
    /// The content of this value, all the way down.
    pub open spec fn model(&self) -> JsonModel
        decreases self,
    {
        match self {
            JsonValue::Null => JsonModel::Null,
            JsonValue::Bool(b) => JsonModel::Bool(*b),
            JsonValue::Number(n) => JsonModel::Number(*n),
            JsonValue::String(s) => JsonModel::String(s@),
            JsonValue::Array(items) => JsonModel::Array(
                Seq::new(
                    items@.len(),
                    |i: int|
                        if 0 <= i < items@.len() {
                            items@[i].model()
                        } else {
                            JsonModel::Null
                        },
                ),
            ),
            JsonValue::Object(dict) => JsonModel::Object(dict.model()),
        }
    }
}

fn duplicate_items(items: &Vec<JsonValue>) -> (copies: Vec<JsonValue>)
    ensures
        copies@.len() == items@.len(),
        forall|j: int| 0 <= j < items@.len() ==> copies@[j]@ == items@[j]@,
    decreases items,
{
    let mut copies: Vec<JsonValue> = Vec::new();
    let mut i: usize = 0;
    while i < items.len()
        invariant
            i <= items@.len(),
            copies@.len() == i,
            forall|j: int| 0 <= j < i ==> copies@[j]@ == items@[j]@,
        decreases items@.len() - i,
    {
        assert(decreases_to!(*items => (*items)[i as int]));
        copies.push(items[i].duplicate());
        i += 1;
    }
    copies
}

fn same_items(left: &Vec<JsonValue>, right: &Vec<JsonValue>) -> (r: bool)
    ensures
        r == (left@.len() == right@.len() && forall|j: int|
            0 <= j < left@.len() ==> left@[j]@ == right@[j]@),
    decreases left,
{
    if left.len() != right.len() {
        return false;
    }
    let mut i: usize = 0;
    while i < left.len()
        invariant
            i <= left@.len(),
            left@.len() == right@.len(),
            forall|j: int| 0 <= j < i ==> left@[j]@ == right@[j]@,
        decreases left@.len() - i,
    {
        assert(decreases_to!(*left => (*left)[i as int]));
        if !left[i].same_value(&right[i]) {
            return false;
        }
        i += 1;
    }
    true
}

impl JsonValue {
    /// Whether this value and `other` have the same content, all the way down.
    pub fn same_value(&self, other: &JsonValue) -> (r: bool)
        ensures
            r == (self@ == other@),
        decreases self,
    {
        match (self, other) {
            (JsonValue::Null, JsonValue::Null) => true,
            (JsonValue::Bool(a), JsonValue::Bool(b)) => *a == *b,
            (JsonValue::Number(a), JsonValue::Number(b)) => *a == *b,
            (JsonValue::String(a), JsonValue::String(b)) => *a == *b,
            (JsonValue::Array(a), JsonValue::Array(b)) => {
                let same = same_items(a, b);
                proof {
                    if same {
                        assert(self@->Array_0 =~= other@->Array_0);
                    } else if a@.len() == b@.len() {
                        let j = choose|j: int| 0 <= j < a@.len() && a@[j]@ != b@[j]@;
                        assert(self@->Array_0[j] == a@[j]@);
                        assert(other@->Array_0[j] == b@[j]@);
                    } else {
                        assert(self@->Array_0.len() != other@->Array_0.len());
                    }
                }
                same
            },
            (JsonValue::Object(a), JsonValue::Object(b)) => a.same_entries(b),
            _ => false,
        }
    }

    /// A deep copy of this value.
    pub fn duplicate(&self) -> (copy: JsonValue)
        ensures
            copy@ == self@,
        decreases self,
    {
        match self {
            JsonValue::Null => JsonValue::Null,
            JsonValue::Bool(b) => JsonValue::Bool(*b),
            JsonValue::Number(n) => JsonValue::Number(*n),
            JsonValue::String(s) => JsonValue::String(s.clone()),
            JsonValue::Array(items) => {
                let copy = JsonValue::Array(duplicate_items(items));
                assert(copy@->Array_0 =~= self@->Array_0);
                copy
            },
            JsonValue::Object(dict) => JsonValue::Object(dict.duplicate()),
        }
    }
}

impl View for JsonValue {
    type V = JsonModel;

    open spec fn view(&self) -> JsonModel {
        self.model()
    }
}

impl View for JsonDict {
    type V = Map<Seq<char>, JsonModel>;

    open spec fn view(&self) -> Map<Seq<char>, JsonModel> {
        self.model()
    }
}

impl JsonDict {
    /// Keys and values stand side by side, and no key occurs twice.
    #[verifier::type_invariant]
    pub closed spec fn well_formed(&self) -> bool {
        &&& self.keys@.len() == self.values@.len()
        &&& forall|i: int, j: int|
            0 <= i < self.keys@.len() && 0 <= j < self.keys@.len() && i != j
                ==> self.keys@[i]@ != self.keys@[j]@
    }

    /// The position of `key` among the keys, where it occurs.
    pub closed spec fn position(&self, key: Seq<char>) -> int {
        choose|i: int| 0 <= i < self.keys@.len() && self.keys@[i]@ == key
    }

    /// The entries of this object, each value all the way down.
    pub closed spec fn model(&self) -> Map<Seq<char>, JsonModel>
        decreases self,
    {
        Map::new(
            |k: Seq<char>| exists|i: int| 0 <= i < self.keys@.len() && self.keys@[i]@ == k,
            |k: Seq<char>|
                {
                    let i = self.position(k);
                    if 0 <= i < self.values@.len() {
                        self.values@[i].model()
                    } else {
                        JsonModel::Null
                    }
                },
        )
    }

    /// The keys, each by its text.
    closed spec fn key_texts(&self) -> Seq<Seq<char>> {
        Seq::new(self.keys@.len(), |i: int| self.keys@[i]@)
    }

    proof fn lemma_entry(&self, i: int)
        requires
            self.well_formed(),
            0 <= i < self.keys@.len(),
        ensures
            self@.contains_key(self.keys@[i]@),
            self@[self.keys@[i]@] == self.values@[i]@,
    {
        let k = self.keys@[i]@;
        let j = self.position(k);
        assert(0 <= j < self.keys@.len() && self.keys@[j]@ == k);
    }

    proof fn lemma_domain(&self)
        requires
            self.well_formed(),
        ensures
            self@.dom() =~= self.key_texts().to_set(),
            self.key_texts().no_duplicates(),
            self@.dom().finite(),
            self@.dom().len() == self.keys@.len(),
    {
        let texts = self.key_texts();
        assert forall|k: Seq<char>| self@.dom().contains(k) <==> texts.to_set().contains(k) by {
            if self@.dom().contains(k) {
                let i = choose|i: int| 0 <= i < self.keys@.len() && self.keys@[i]@ == k;
                assert(texts[i] == k);
            }
            if texts.to_set().contains(k) {
                let i = choose|i: int| 0 <= i < texts.len() && texts[i] == k;
                assert(self.keys@[i]@ == k);
            }
        }
        texts.unique_seq_to_set();
    }

    /// Whether every entry of this object occurs in `other` with the same content.
    fn included_in(&self, other: &JsonDict) -> (r: bool)
        ensures
            r == (forall|k: Seq<char>| #[trigger]
                self@.contains_key(k) ==> other@.contains_key(k) && other@[k] == self@[k]),
        decreases self, 0nat,
    {
        proof {
            use_type_invariant(self);
        }
        let mut i: usize = 0;
        while i < self.keys.len()
            invariant
                self.well_formed(),
                i <= self.keys@.len(),
                forall|j: int|
                    0 <= j < i ==> other@.contains_key(#[trigger] self.keys@[j]@)
                        && other@[self.keys@[j]@] == self.values@[j]@,
            decreases self.keys@.len() - i,
        {
            proof {
                self.lemma_entry(i as int);
            }
            match other.get(self.keys[i].as_str()) {
                Some(value) => {
                    if !self.values[i].same_value(value) {
                        return false;
                    }
                },
                None => {
                    return false;
                },
            }
            i += 1;
        }
        proof {
            assert forall|k: Seq<char>| #[trigger] self@.contains_key(k) implies other@.contains_key(
                k,
            ) && other@[k] == self@[k] by {
                let j = choose|j: int| 0 <= j < self.keys@.len() && self.keys@[j]@ == k;
                self.lemma_entry(j);
            }
        }
        true
    }

    /// Whether this object and `other` have the same entries, all the way down.
    pub fn same_entries(&self, other: &JsonDict) -> (r: bool)
        ensures
            r == (self@ == other@),
        decreases self, 1nat,
    {
        proof {
            use_type_invariant(self);
            use_type_invariant(other);
            self.lemma_domain();
            other.lemma_domain();
        }
        if self.keys.len() != other.keys.len() {
            return false;
        }
        let included = self.included_in(other);
        proof {
            if included {
                assert(self@.dom().subset_of(other@.dom()));
                vstd::set_lib::lemma_subset_equality(self@.dom(), other@.dom());
                assert(self@ =~= other@);
            }
        }
        included
    }

    /// A deep copy of this object.
    pub fn duplicate(&self) -> (copy: JsonDict)
        ensures
            copy@ == self@,
        decreases self,
    {
        proof {
            use_type_invariant(self);
        }
        let mut keys: Vec<String> = Vec::new();
        let mut values: Vec<JsonValue> = Vec::new();
        let mut i: usize = 0;
        while i < self.keys.len()
            invariant
                self.well_formed(),
                i <= self.keys@.len(),
                keys@.len() == i,
                values@.len() == i,
                forall|j: int| 0 <= j < i ==> keys@[j]@ == self.keys@[j]@,
                forall|j: int| 0 <= j < i ==> values@[j]@ == self.values@[j]@,
            decreases self.keys@.len() - i,
        {
            keys.push(self.keys[i].clone());
            values.push(self.values[i].duplicate());
            i += 1;
        }
        let copy = JsonDict { keys, values };
        proof {
            assert forall|k: Seq<char>| copy@.contains_key(k) <==> self@.contains_key(k) by {
                if copy@.contains_key(k) {
                    let j = choose|j: int| 0 <= j < copy.keys@.len() && copy.keys@[j]@ == k;
                    assert(self.keys@[j]@ == k);
                }
                if self@.contains_key(k) {
                    let j = choose|j: int| 0 <= j < self.keys@.len() && self.keys@[j]@ == k;
                    assert(copy.keys@[j]@ == k);
                }
            }
            assert forall|k: Seq<char>| copy@.contains_key(k) implies copy@[k] == self@[k] by {
                let j = choose|j: int| 0 <= j < copy.keys@.len() && copy.keys@[j]@ == k;
                copy.lemma_entry(j);
                self.lemma_entry(j);
            }
            assert(copy@ =~= self@);
        }
        copy
    }

    /// An object without entries.
    pub fn new() -> (dict: JsonDict)
        ensures
            dict@ == Map::<Seq<char>, JsonModel>::empty(),
    {
        let dict = JsonDict { keys: Vec::new(), values: Vec::new() };
        assert(dict@ =~= Map::<Seq<char>, JsonModel>::empty());
        dict
    }

    /// The number of entries.
    pub fn len(&self) -> (n: usize)
        ensures
            self@.dom().finite(),
            n == self@.dom().len(),
    {
        proof {
            use_type_invariant(self);
            self.lemma_domain();
        }
        self.keys.len()
    }

    /// The keys, each once, in no particular order.
    pub fn keys(&self) -> (names: Vec<String>)
        ensures
            self@.dom().finite(),
            names@.len() == self@.dom().len(),
            forall|i: int| 0 <= i < names@.len() ==> self@.contains_key(#[trigger] names@[i]@),
            forall|k: Seq<char>|
                self@.contains_key(k) ==> exists|i: int|
                    0 <= i < names@.len() && #[trigger] names@[i]@ == k,
            forall|i: int, j: int|
                0 <= i < names@.len() && 0 <= j < names@.len() && i != j ==> #[trigger] names@[i]@
                    != #[trigger] names@[j]@,
    {
        proof {
            use_type_invariant(self);
            self.lemma_domain();
        }
        let mut names: Vec<String> = Vec::new();
        let mut i: usize = 0;
        while i < self.keys.len()
            invariant
                i <= self.keys@.len(),
                names@.len() == i,
                forall|j: int| 0 <= j < i ==> #[trigger] names@[j]@ == self.keys@[j]@,
            decreases self.keys@.len() - i,
        {
            names.push(self.keys[i].clone());
            i += 1;
        }
        proof {
            assert forall|j: int| 0 <= j < names@.len() implies self@.contains_key(
                #[trigger] names@[j]@,
            ) by {
                self.lemma_entry(j);
            }
            assert forall|k: Seq<char>| self@.contains_key(k) implies exists|j: int|
                0 <= j < names@.len() && #[trigger] names@[j]@ == k by {
                let j = choose|j: int| 0 <= j < self.keys@.len() && self.keys@[j]@ == k;
                assert(names@[j]@ == k);
            }
        }
        names
    }

    /// Whether there is no entry.
    pub fn is_empty(&self) -> (r: bool)
        ensures
            r == (self@ == Map::<Seq<char>, JsonModel>::empty()),
    {
        proof {
            use_type_invariant(self);
            if self.keys@.len() == 0 {
                assert(self@ =~= Map::<Seq<char>, JsonModel>::empty());
            } else {
                self.lemma_entry(0);
            }
        }
        self.keys.len() == 0
    }

    fn find(&self, key: &str) -> (r: Option<usize>)
        ensures
            match r {
                Some(i) => i < self.keys@.len() && self.keys@[i as int]@ == key@,
                None => forall|i: int| 0 <= i < self.keys@.len() ==> self.keys@[i]@ != key@,
            },
    {
        let probe = String::from_str(key);
        let mut i: usize = 0;
        while i < self.keys.len()
            invariant
                i <= self.keys@.len(),
                probe@ == key@,
                forall|j: int| 0 <= j < i ==> self.keys@[j]@ != key@,
            decreases self.keys@.len() - i,
        {
            if self.keys[i] == probe {
                return Some(i);
            }
            i += 1;
        }
        None
    }

    /// Whether there is an entry under `key`.
    pub fn contains_key(&self, key: &str) -> (r: bool)
        ensures
            r == self@.contains_key(key@),
    {
        self.find(key).is_some()
    }

    /// The value under `key`, if there is one.
    pub fn get(&self, key: &str) -> (r: Option<&JsonValue>)
        ensures
            match r {
                Some(v) => self@.contains_key(key@) && v@ == self@[key@],
                None => !self@.contains_key(key@),
            },
    {
        proof {
            use_type_invariant(self);
        }
        match self.find(key) {
            Some(i) => {
                proof {
                    self.lemma_entry(i as int);
                }
                Some(&self.values[i])
            },
            None => None,
        }
    }

    /// Puts `value` under `key`, and hands back the value that was there before.
    pub fn insert(&mut self, key: String, value: JsonValue) -> (r: Option<JsonValue>)
        ensures
            final(self)@ == old(self)@.insert(key@, value@),
            match r {
                Some(v) => old(self)@.contains_key(key@) && v@ == old(self)@[key@],
                None => !old(self)@.contains_key(key@),
            },
    {
        proof {
            use_type_invariant(&*self);
        }
        let ghost before = *self;
        let found = self.find(key.as_str());
        let mut taken = JsonDict::new();
        std::mem::swap(self, &mut taken);
        let JsonDict { mut keys, mut values } = taken;
        match found {
            Some(i) => {
                let mut slot = value;
                values.set_and_swap(i, &mut slot);
                *self = JsonDict { keys, values };
                proof {
                    before.lemma_entry(i as int);
                    assert forall|k: Seq<char>|
                        self@.contains_key(k) <==> before@.insert(key@, value@).contains_key(
                            k,
                        ) by {}
                    assert forall|k: Seq<char>| self@.contains_key(k) implies self@[k]
                        == before@.insert(key@, value@)[k] by {
                        let j = choose|j: int| 0 <= j < self.keys@.len() && self.keys@[j]@ == k;
                        self.lemma_entry(j);
                        before.lemma_entry(j);
                    }
                    assert(self@ =~= before@.insert(key@, value@));
                }
                Some(slot)
            },
            None => {
                keys.push(key);
                values.push(value);
                *self = JsonDict { keys, values };
                proof {
                    let last = self.keys@.len() - 1;
                    assert forall|k: Seq<char>|
                        self@.contains_key(k) <==> before@.insert(key@, value@).contains_key(
                            k,
                        ) by {
                        if self@.contains_key(k) {
                            let j = choose|j: int|
                                0 <= j < self.keys@.len() && self.keys@[j]@ == k;
                            if j < last {
                                assert(before.keys@[j]@ == k);
                            }
                        }
                        if before@.contains_key(k) {
                            let j = choose|j: int|
                                0 <= j < before.keys@.len() && before.keys@[j]@ == k;
                            assert(self.keys@[j]@ == k);
                        }
                        if k == key@ {
                            assert(self.keys@[last]@ == k);
                        }
                    }
                    assert forall|k: Seq<char>| self@.contains_key(k) implies self@[k]
                        == before@.insert(key@, value@)[k] by {
                        let j = choose|j: int| 0 <= j < self.keys@.len() && self.keys@[j]@ == k;
                        self.lemma_entry(j);
                        if j < last {
                            before.lemma_entry(j);
                        }
                    }
                    assert(self@ =~= before@.insert(key@, value@));
                }
                None
            },
        }
    }

    /// Takes the entry under `key` out, and hands back its value.
    pub fn remove(&mut self, key: &str) -> (r: Option<JsonValue>)
        ensures
            final(self)@ == old(self)@.remove(key@),
            match r {
                Some(v) => old(self)@.contains_key(key@) && v@ == old(self)@[key@],
                None => !old(self)@.contains_key(key@),
            },
    {
        proof {
            use_type_invariant(&*self);
        }
        let ghost before = *self;
        match self.find(key) {
            Some(i) => {
                let mut whole = JsonDict::new();
                std::mem::swap(self, &mut whole);
                let JsonDict { mut keys, mut values } = whole;
                keys.remove(i);
                let taken = values.remove(i);
                *self = JsonDict { keys, values };
                proof {
                    before.lemma_entry(i as int);
                    assert forall|j: int| 0 <= j < self.keys@.len() implies self.keys@[j]
                        == before.keys@[if j < i {
                        j
                    } else {
                        j + 1
                    }] && self.values@[j] == before.values@[if j < i {
                        j
                    } else {
                        j + 1
                    }] by {}
                    assert forall|k: Seq<char>|
                        self@.contains_key(k) <==> before@.remove(key@).contains_key(k) by {
                        if self@.contains_key(k) {
                            let j = choose|j: int|
                                0 <= j < self.keys@.len() && self.keys@[j]@ == k;
                            let src = if j < i {
                                j
                            } else {
                                j + 1
                            };
                            assert(before.keys@[src]@ == k);
                        }
                        if before@.contains_key(k) && k != key@ {
                            let j = choose|j: int|
                                0 <= j < before.keys@.len() && before.keys@[j]@ == k;
                            let dst = if j < i {
                                j
                            } else {
                                j - 1
                            };
                            assert(self.keys@[dst]@ == k);
                        }
                    }
                    assert forall|k: Seq<char>| self@.contains_key(k) implies self@[k]
                        == before@.remove(key@)[k] by {
                        let j = choose|j: int| 0 <= j < self.keys@.len() && self.keys@[j]@ == k;
                        let src = if j < i {
                            j
                        } else {
                            j + 1
                        };
                        self.lemma_entry(j);
                        before.lemma_entry(src);
                    }
                    assert(self@ =~= before@.remove(key@));
                }
                Some(taken)
            },
            None => {
                proof {
                    assert(self@ =~= before@.remove(key@));
                }
                None
            },
        }
    }
}

} // verus!
