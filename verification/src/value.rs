//! The dynamic value tree and its mathematical model.

use vstd::prelude::*;

verus! {

/// `serde_json::Number`, a JSON number that keeps apart integers and
/// floating-point numbers. Values of it are carried, never opened.
#[verifier::external_type_specification]
#[verifier::external_body]
pub struct ExNumber(serde_json::Number);

/// `Clone::clone` of `serde_json::Number`: the copy is the same number.
pub assume_specification[ <serde_json::Number as Clone>::clone ](n: &serde_json::Number) -> (r:
    serde_json::Number)
    ensures
        r == *n,
;

/// The model of a dynamic value: a finite tree. An object is the sequence of
/// its members in insertion order.
pub enum Json {
    Null,
    Bool(bool),
    Number(serde_json::Number),
    String(Seq<char>),
    Array(Seq<Json>),
    Object(Seq<Member>),
}

/// One member of an object: a key and the value that it names.
pub struct Member {
    pub key: Seq<char>,
    pub value: Json,
}

/// No key occurs twice among the members.
pub open spec fn distinct_keys(members: Seq<Member>) -> bool {
    forall|i: int, j: int|
        #![trigger members[i], members[j]]
        0 <= i < j < members.len() ==> members[i].key != members[j].key
}

impl Json {
    /// Every object in the tree is a mapping: none has two members with the
    /// same key.
    pub open spec fn wf(self) -> bool
        decreases self,
    {
        match self {
            Json::Array(items) => forall|i: int|
                0 <= i < items.len() ==> (#[trigger] items[i]).wf(),
            Json::Object(members) => distinct_keys(members) && forall|i: int|
                0 <= i < members.len() ==> (#[trigger] members[i]).value.wf(),
            _ => true,
        }
    }
}

/// Every tree of the sequence is a tree of mappings.
pub open spec fn all_wf(items: Seq<Json>) -> bool {
    forall|k: int| 0 <= k < items.len() ==> (#[trigger] items[k]).wf()
}

/// Every value among the members is a tree of mappings.
pub open spec fn all_values_wf(members: Seq<Member>) -> bool {
    forall|k: int| 0 <= k < members.len() ==> (#[trigger] members[k]).value.wf()
}

/// An array is a tree of mappings where each of its items is one.
pub proof fn lemma_wf_array(items: Seq<Json>)
    ensures
        Json::Array(items).wf() == all_wf(items),
{
    assert(Json::Array(items)->Array_0 == items);
}

/// An object is a tree of mappings where no key occurs twice and each of
/// its values is one.
pub proof fn lemma_wf_object(members: Seq<Member>)
    ensures
        Json::Object(members).wf() == (distinct_keys(members) && all_values_wf(members)),
{
    assert(Json::Object(members)->Object_0 == members);
}

/// A JSON-shaped value: the interchange format between files, host values
/// and HTTP payloads.
#[derive(Debug, PartialEq)]
pub enum DynamicValue {
    Null,
    Bool(bool),
    Number(serde_json::Number),
    String(String),
    Array(Vec<DynamicValue>),
    /// The members in insertion order.
    Object(Vec<(String, DynamicValue)>),
}

impl View for DynamicValue {
    type V = Json;

    open spec fn view(&self) -> Json
        decreases self,
    {
        match self {
            DynamicValue::Null => Json::Null,
            DynamicValue::Bool(b) => Json::Bool(*b),
            DynamicValue::Number(n) => Json::Number(*n),
            DynamicValue::String(s) => Json::String(s@),
            DynamicValue::Array(items) => Json::Array(
                Seq::new(
                    items@.len(),
                    |i: int|
                        if 0 <= i < items@.len() {
                            items@[i].view()
                        } else {
                            Json::Null
                        },
                ),
            ),
            DynamicValue::Object(members) => Json::Object(
                Seq::new(
                    members@.len(),
                    |i: int|
                        if 0 <= i < members@.len() {
                            Member { key: members@[i].0@, value: members@[i].1.view() }
                        } else {
                            Member { key: Seq::empty(), value: Json::Null }
                        },
                ),
            ),
        }
    }
}

/// The trees of a sequence of values.
pub open spec fn array_view(items: Seq<DynamicValue>) -> Seq<Json> {
    Seq::new(items.len(), |i: int| items[i]@)
}

/// The members that a sequence of pairs stands for.
pub open spec fn object_view(members: Seq<(String, DynamicValue)>) -> Seq<Member> {
    Seq::new(members.len(), |i: int| Member { key: members[i].0@, value: members[i].1@ })
}

/// An array is the array of the trees of its items.
pub proof fn lemma_array_view(items: Vec<DynamicValue>)
    ensures
        DynamicValue::Array(items)@ == Json::Array(array_view(items@)),
{
    assert(DynamicValue::Array(items)@->Array_0 =~= array_view(items@));
}

/// An object is the object of the members of its pairs.
pub proof fn lemma_object_view(members: Vec<(String, DynamicValue)>)
    ensures
        DynamicValue::Object(members)@ == Json::Object(object_view(members@)),
{
    assert(DynamicValue::Object(members)@->Object_0 =~= object_view(members@));
}

/// Tells whether no key occurs twice among the pairs.
pub fn has_distinct_keys(members: &Vec<(String, DynamicValue)>) -> (r: bool)
    ensures
        r == distinct_keys(object_view(members@)),
{
    let mut i: usize = 0;
    while i < members.len()
        invariant
            i <= members.len(),
            forall|a: int, b: int|
                #![trigger object_view(members@)[a], object_view(members@)[b]]
                0 <= a < b < i ==> object_view(members@)[a].key != object_view(members@)[b].key,
        decreases members.len() - i,
    {
        let mut j: usize = 0;
        while j < i
            invariant
                j <= i < members.len(),
                forall|a: int|
                    0 <= a < j ==> (#[trigger] object_view(members@)[a]).key != object_view(
                        members@,
                    )[i as int].key,
            decreases i - j,
        {
            if members[j].0 == members[i].0 {
                assert(object_view(members@)[j as int].key == object_view(members@)[i as int].key);
                return false;
            }
            j += 1;
        }
        i += 1;
    }
    true
}

impl DynamicValue {
    /// Every object in the value is a mapping.
    pub open spec fn wf(&self) -> bool {
        self@.wf()
    }

    /// Tells whether every object in the value is a mapping.
    pub fn is_well_formed(&self) -> (r: bool)
        ensures
            r == self.wf(),
        decreases self,
    {
        match self {
            DynamicValue::Array(items) => {
                let mut i: usize = 0;
                while i < items.len()
                    invariant
                        i <= items.len(),
                        *self == DynamicValue::Array(*items),
                        forall|k: int| 0 <= k < i ==> (#[trigger] self@->Array_0[k]).wf(),
                    decreases items.len() - i,
                {
                    if !items[i].is_well_formed() {
                        assert(!self@->Array_0[i as int].wf());
                        return false;
                    }
                    i += 1;
                }
                true
            },
            DynamicValue::Object(members) => {
                let mut i: usize = 0;
                while i < members.len()
                    invariant
                        i <= members.len(),
                        *self == DynamicValue::Object(*members),
                        forall|k: int| 0 <= k < i ==> (#[trigger] self@->Object_0[k]).value.wf(),
                        forall|a: int, b: int|
                            #![trigger self@->Object_0[a], self@->Object_0[b]]
                            0 <= a < b < i ==> self@->Object_0[a].key != self@->Object_0[b].key,
                    decreases members.len() - i,
                {
                    if !members[i].1.is_well_formed() {
                        return false;
                    }
                    let mut j: usize = 0;
                    while j < i
                        invariant
                            j <= i < members.len(),
                            *self == DynamicValue::Object(*members),
                            forall|a: int|
                                0 <= a < j ==> (#[trigger] self@->Object_0[a]).key
                                    != self@->Object_0[i as int].key,
                        decreases i - j,
                    {
                        if members[j].0 == members[i].0 {
                            assert(self@->Object_0[j as int].key == self@->Object_0[i as int].key);
                            return false;
                        }
                        j += 1;
                    }
                    i += 1;
                }
                true
            },
            _ => true,
        }
    }
}

impl Clone for DynamicValue {
    /// A deep copy: the same tree.
    fn clone(&self) -> (r: Self)
        ensures
            r@ == self@,
        decreases self,
    {
        match self {
            DynamicValue::Null => DynamicValue::Null,
            DynamicValue::Bool(b) => DynamicValue::Bool(*b),
            DynamicValue::Number(n) => DynamicValue::Number(n.clone()),
            DynamicValue::String(s) => DynamicValue::String(s.clone()),
            DynamicValue::Array(items) => {
                let mut out: Vec<DynamicValue> = Vec::new();
                let mut i: usize = 0;
                while i < items.len()
                    invariant
                        i <= items.len(),
                        out@.len() == i,
                        *self == DynamicValue::Array(*items),
                        forall|k: int| 0 <= k < i ==> (#[trigger] out@[k])@ == items@[k]@,
                    decreases items.len() - i,
                {
                    proof {
                        assert(decreases_to!(*self => self->Array_0));
                    }
                    out.push(items[i].clone());
                    i += 1;
                }
                let r = DynamicValue::Array(out);
                assert(r@->Array_0 =~= self@->Array_0);
                r
            },
            DynamicValue::Object(members) => {
                let mut out: Vec<(String, DynamicValue)> = Vec::new();
                let mut i: usize = 0;
                while i < members.len()
                    invariant
                        i <= members.len(),
                        out@.len() == i,
                        *self == DynamicValue::Object(*members),
                        forall|k: int|
                            0 <= k < i ==> (#[trigger] out@[k]).0@ == members@[k].0@ && out@[k].1@
                                == members@[k].1@,
                    decreases members.len() - i,
                {
                    proof {
                        assert(decreases_to!(*self => self->Object_0));
                    }
                    out.push((members[i].0.clone(), members[i].1.clone()));
                    i += 1;
                }
                let r = DynamicValue::Object(out);
                assert(r@->Object_0 =~= self@->Object_0);
                r
            },
        }
    }
}

} // verus!
