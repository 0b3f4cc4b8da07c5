//! Host values. A host program holds its data as objects that refer to one
//! another: lists and mappings of anything, shared and possibly circular.
//! `HostHeap` pictures such objects; `to_dynamic` turns what one of them
//! holds into a dynamic value, or says why it has no JSON form.

use crate::error::ConversionFault;
use crate::value::all_values_wf;
use crate::value::all_wf;
use crate::value::array_view;
use crate::value::distinct_keys;
use crate::value::lemma_wf_array;
use crate::value::lemma_wf_object;
use crate::value::lemma_array_view;
use crate::value::lemma_object_view;
use crate::value::object_view;
use crate::value::DynamicValue;
use crate::value::Json;
use crate::value::Member;
use vstd::prelude::*;

verus! {

/// One object of the host program. A list and a mapping refer to other
/// objects by their index in the heap.
#[derive(Debug)]
pub enum HostObject {
    /// The host's null.
    Null,
    Bool(bool),
    Number(serde_json::Number),
    Str(String),
    /// The items, in order.
    List(Vec<usize>),
    /// The entries, in order: a key and a value.
    Dict(Vec<(usize, usize)>),
    /// An object of a type that JSON does not have.
    Other,
}

/// The objects of the host program that a value can reach.
#[derive(Debug)]
pub struct HostHeap {
    pub objects: Vec<HostObject>,
}

/// `above` is a set of objects of the heap.
pub open spec fn within(heap: Seq<HostObject>, above: Set<int>) -> bool {
    above.finite() && forall|i: int| above.contains(i) ==> 0 <= i < heap.len()
}

/// A set of objects of the heap that lacks one of them has room for it.
pub proof fn lemma_room(heap: Seq<HostObject>, above: Set<int>, at: int)
    requires
        within(heap, above),
        0 <= at < heap.len(),
        !above.contains(at),
    ensures
        within(heap, above.insert(at)),
        above.insert(at).len() == above.len() + 1,
        above.len() + 1 <= heap.len(),
{
    let all = vstd::set_lib::set_int_range(0, heap.len() as int);
    vstd::set_lib::lemma_int_range(0, heap.len() as int);
    assert(above.insert(at).subset_of(all));
    vstd::set_lib::lemma_len_subset(above.insert(at), all);
}

/// The text of the object that a key refers to. A key is a string.
pub open spec fn key_text(heap: Seq<HostObject>, at: int) -> Result<Seq<char>, ConversionFault> {
    if !(0 <= at < heap.len()) {
        Err(ConversionFault::DanglingReference)
    } else {
        match heap[at] {
            HostObject::Str(s) => Ok(s@),
            _ => Err(ConversionFault::NonStringKey),
        }
    }
}

/// The tree that the object `at` unfolds to, where `above` are the objects
/// that contain it, or the first fault that unfolding it meets. An object
/// that contains itself has no tree; nor has one of an unsupported type, a
/// mapping with a key that is no string or with one key twice, or a
/// reference that points outside the heap.
pub open spec fn tree(heap: Seq<HostObject>, at: int, above: Set<int>) -> Result<
    Json,
    ConversionFault,
>
    decreases heap.len() - above.len(), 0int, 0int,
    when within(heap, above)
{
    if !(0 <= at < heap.len()) {
        Err(ConversionFault::DanglingReference)
    } else if above.contains(at) {
        Err(ConversionFault::Cycle)
    } else {
        match heap[at] {
            HostObject::Null => Ok(Json::Null),
            HostObject::Bool(b) => Ok(Json::Bool(b)),
            HostObject::Number(n) => Ok(Json::Number(n)),
            HostObject::Str(s) => Ok(Json::String(s@)),
            HostObject::Other => Err(ConversionFault::UnsupportedType),
            HostObject::List(refs) => {
                proof {
                    lemma_room(heap, above, at);
                }
                match trees(heap, refs@, above.insert(at)) {
                    Ok(items) => Ok(Json::Array(items)),
                    Err(fault) => Err(fault),
                }
            },
            HostObject::Dict(links) => {
                proof {
                    lemma_room(heap, above, at);
                }
                match members(heap, links@, above.insert(at)) {
                    Ok(found) => if distinct_keys(found) {
                        Ok(Json::Object(found))
                    } else {
                        Err(ConversionFault::DuplicateKey)
                    },
                    Err(fault) => Err(fault),
                }
            },
        }
    }
}

/// The trees of the items of a list, or the first fault among them.
pub open spec fn trees(heap: Seq<HostObject>, refs: Seq<usize>, above: Set<int>) -> Result<
    Seq<Json>,
    ConversionFault,
>
    decreases heap.len() - above.len(), 1int, refs.len(),
    when within(heap, above)
{
    if refs.len() == 0 {
        Ok(Seq::empty())
    } else {
        match trees(heap, refs.drop_last(), above) {
            Err(fault) => Err(fault),
            Ok(front) => match tree(heap, refs.last() as int, above) {
                Err(fault) => Err(fault),
                Ok(item) => Ok(front.push(item)),
            },
        }
    }
}

/// The members of the entries of a mapping, or the first fault among them.
pub open spec fn members(heap: Seq<HostObject>, links: Seq<(usize, usize)>, above: Set<int>)
    -> Result<Seq<Member>, ConversionFault>
    decreases heap.len() - above.len(), 1int, links.len(),
    when within(heap, above)
{
    if links.len() == 0 {
        Ok(Seq::empty())
    } else {
        match members(heap, links.drop_last(), above) {
            Err(fault) => Err(fault),
            Ok(front) => match key_text(heap, links.last().0 as int) {
                Err(fault) => Err(fault),
                Ok(key) => match tree(heap, links.last().1 as int, above) {
                    Err(fault) => Err(fault),
                    Ok(value) => Ok(front.push(Member { key, value })),
                },
            },
        }
    }
}

/// A fault among the first items of a list is the fault of the list.
proof fn lemma_trees_fault_stays(heap: Seq<HostObject>, refs: Seq<usize>, n: int, above: Set<int>)
    requires
        within(heap, above),
        0 <= n <= refs.len(),
        trees(heap, refs.take(n), above) is Err,
    ensures
        trees(heap, refs, above) == trees(heap, refs.take(n), above),
    decreases refs.len() - n,
{
    if n == refs.len() {
        assert(refs.take(n) =~= refs);
    } else {
        assert(refs.take(n + 1).drop_last() =~= refs.take(n));
        lemma_trees_fault_stays(heap, refs, n + 1, above);
    }
}

/// A fault among the first entries of a mapping is the fault of the
/// mapping.
proof fn lemma_members_fault_stays(
    heap: Seq<HostObject>,
    links: Seq<(usize, usize)>,
    n: int,
    above: Set<int>,
)
    requires
        within(heap, above),
        0 <= n <= links.len(),
        members(heap, links.take(n), above) is Err,
    ensures
        members(heap, links, above) == members(heap, links.take(n), above),
    decreases links.len() - n,
{
    if n == links.len() {
        assert(links.take(n) =~= links);
    } else {
        assert(links.take(n + 1).drop_last() =~= links.take(n));
        lemma_members_fault_stays(heap, links, n + 1, above);
    }
}

/// The flags mark the objects of `above`, and no others.
pub open spec fn marks(flags: Seq<bool>, above: Set<int>) -> bool {
    forall|i: int| 0 <= i < flags.len() ==> (flags[i] <==> above.contains(i))
}

/// Unfolds the object `at`. `on_path` flags the objects that contain it;
/// the flags are left as they were found.
fn visit(heap: &HostHeap, at: usize, on_path: &mut Vec<bool>, Ghost(above): Ghost<Set<int>>) -> (r:
    Result<DynamicValue, ConversionFault>)
    requires
        old(on_path)@.len() == heap.objects@.len(),
        within(heap.objects@, above),
        marks(old(on_path)@, above),
    ensures
        final(on_path)@ == old(on_path)@,
        match tree(heap.objects@, at as int, above) {
            Ok(t) => r matches Ok(v) && v@ == t && v.wf(),
            Err(f) => r matches Err(e) && e == f,
        },
    decreases heap.objects@.len() - above.len(),
{
    if at >= heap.objects.len() {
        return Err(ConversionFault::DanglingReference);
    }
    if on_path[at] {
        return Err(ConversionFault::Cycle);
    }
    let ghost inner = above.insert(at as int);
    let ghost flags = on_path@;
    proof {
        lemma_room(heap.objects@, above, at as int);
    }
    match &heap.objects[at] {
        HostObject::Null => Ok(DynamicValue::Null),
        HostObject::Bool(b) => Ok(DynamicValue::Bool(*b)),
        HostObject::Number(n) => Ok(DynamicValue::Number(n.clone())),
        HostObject::Str(s) => Ok(DynamicValue::String(s.clone())),
        HostObject::Other => Err(ConversionFault::UnsupportedType),
        HostObject::List(refs) => {
            on_path.set(at, true);
            let mut out: Vec<DynamicValue> = Vec::new();
            let mut i: usize = 0;
            assert(array_view(out@) =~= Seq::<Json>::empty());
            while i < refs.len()
                invariant
                    i <= refs.len(),
                    at < heap.objects@.len(),
                    heap.objects@[at as int] == HostObject::List(*refs),
                    !above.contains(at as int),
                    flags == old(on_path)@,
                    flags.len() == heap.objects@.len(),
                    on_path@ == flags.update(at as int, true),
                    marks(flags, above),
                    within(heap.objects@, above),
                    within(heap.objects@, inner),
                    inner == above.insert(at as int),
                    inner.len() == above.len() + 1,
                    inner.len() <= heap.objects@.len(),
                    trees(heap.objects@, refs@.take(i as int), inner) == Ok::<
                        Seq<Json>,
                        ConversionFault,
                    >(array_view(out@)),
                    forall|k: int| 0 <= k < out@.len() ==> (#[trigger] out@[k]).wf(),
                decreases refs.len() - i,
            {
                proof {
                    assert(refs@.take(i as int + 1).drop_last() =~= refs@.take(i as int));
                }
                let ghost before = array_view(out@);
                match visit(heap, refs[i], on_path, Ghost(inner)) {
                    Ok(value) => {
                        out.push(value);
                        assert(array_view(out@) =~= before.push(value@));
                    },
                    Err(fault) => {
                        proof {
                            lemma_trees_fault_stays(heap.objects@, refs@, i as int + 1, inner);
                        }
                        on_path.set(at, false);
                        return Err(fault);
                    },
                }
                i += 1;
            }
            on_path.set(at, false);
            proof {
                assert(refs@.take(i as int) =~= refs@);
                lemma_array_view(out);
                assert forall|k: int| 0 <= k < array_view(out@).len() implies (#[trigger] array_view(
                    out@,
                )[k]).wf() by {}
            }
            Ok(DynamicValue::Array(out))
        },
        HostObject::Dict(links) => {
            on_path.set(at, true);
            let mut out: Vec<(String, DynamicValue)> = Vec::new();
            let mut i: usize = 0;
            assert(object_view(out@) =~= Seq::<Member>::empty());
            while i < links.len()
                invariant
                    i <= links.len(),
                    at < heap.objects@.len(),
                    heap.objects@[at as int] == HostObject::Dict(*links),
                    !above.contains(at as int),
                    flags == old(on_path)@,
                    flags.len() == heap.objects@.len(),
                    on_path@ == flags.update(at as int, true),
                    marks(flags, above),
                    within(heap.objects@, above),
                    within(heap.objects@, inner),
                    inner == above.insert(at as int),
                    inner.len() == above.len() + 1,
                    inner.len() <= heap.objects@.len(),
                    members(heap.objects@, links@.take(i as int), inner) == Ok::<
                        Seq<Member>,
                        ConversionFault,
                    >(object_view(out@)),
                    forall|k: int| 0 <= k < out@.len() ==> (#[trigger] out@[k]).1.wf(),
                decreases links.len() - i,
            {
                proof {
                    assert(links@.take(i as int + 1).drop_last() =~= links@.take(i as int));
                }
                let ghost before = object_view(out@);
                let key_at = links[i].0;
                let value_at = links[i].1;
                let key = if key_at < heap.objects.len() {
                    match &heap.objects[key_at] {
                        HostObject::Str(s) => Ok(s.clone()),
                        _ => Err(ConversionFault::NonStringKey),
                    }
                } else {
                    Err(ConversionFault::DanglingReference)
                };
                let member = match key {
                    Ok(key) => match visit(heap, value_at, on_path, Ghost(inner)) {
                        Ok(value) => Ok((key, value)),
                        Err(fault) => Err(fault),
                    },
                    Err(fault) => Err(fault),
                };
                match member {
                    Ok(pair) => {
                        out.push(pair);
                        assert(object_view(out@) =~= before.push(
                            Member { key: pair.0@, value: pair.1@ },
                        ));
                    },
                    Err(fault) => {
                        proof {
                            lemma_members_fault_stays(heap.objects@, links@, i as int + 1, inner);
                        }
                        on_path.set(at, false);
                        return Err(fault);
                    },
                }
                i += 1;
            }
            on_path.set(at, false);
            proof {
                assert(links@.take(i as int) =~= links@);
                lemma_object_view(out);
                assert forall|k: int| 0 <= k < object_view(out@).len() implies (
                #[trigger] object_view(out@)[k]).value.wf() by {}
            }
            if crate::value::has_distinct_keys(&out) {
                Ok(DynamicValue::Object(out))
            } else {
                Err(ConversionFault::DuplicateKey)
            }
        },
    }
}

/// Converts what the host object `root` holds into a dynamic value.
/// Nothing is coerced or dropped: a value that JSON cannot hold is refused
/// with the first fault that unfolding it meets, and an object that
/// contains itself is found, not followed.
pub fn to_dynamic(heap: &HostHeap, root: usize) -> (r: Result<DynamicValue, ConversionFault>)
    ensures
        match tree(heap.objects@, root as int, Set::empty()) {
            Ok(t) => r matches Ok(v) && v@ == t && v.wf(),
            Err(f) => r matches Err(e) && e == f,
        },
{
    let mut on_path: Vec<bool> = Vec::new();
    let mut i: usize = 0;
    while i < heap.objects.len()
        invariant
            i <= heap.objects.len(),
            on_path@.len() == i,
            forall|k: int| 0 <= k < i ==> !on_path@[k],
        decreases heap.objects.len() - i,
    {
        on_path.push(false);
        i += 1;
    }
    visit(heap, root, &mut on_path, Ghost(Set::empty()))
}

/// The object `from` holds the object `to`: as an item, or as the value of
/// an entry.
pub open spec fn holds(heap: Seq<HostObject>, from: int, to: int) -> bool {
    0 <= from < heap.len() && match heap[from] {
        HostObject::List(refs) => exists|k: int| 0 <= k < refs@.len() && #[trigger] refs@[k] == to,
        HostObject::Dict(links) => exists|k: int|
            0 <= k < links@.len() && (#[trigger] links@[k]).1 == to,
        _ => false,
    }
}

/// Each object of the path holds the next.
pub open spec fn chain(heap: Seq<HostObject>, path: Seq<int>) -> bool {
    forall|i: int| 0 <= i < path.len() - 1 ==> holds(heap, #[trigger] path[i], path[i + 1])
}

/// Where a list has trees, each of its items has one.
proof fn lemma_item_has_tree(heap: Seq<HostObject>, refs: Seq<usize>, above: Set<int>, k: int)
    requires
        within(heap, above),
        trees(heap, refs, above) is Ok,
        0 <= k < refs.len(),
    ensures
        tree(heap, refs[k] as int, above) is Ok,
    decreases refs.len(),
{
    if k < refs.len() - 1 {
        lemma_item_has_tree(heap, refs.drop_last(), above, k);
    }
}

/// Where a mapping has members, each of its values has a tree.
proof fn lemma_value_has_tree(
    heap: Seq<HostObject>,
    links: Seq<(usize, usize)>,
    above: Set<int>,
    k: int,
)
    requires
        within(heap, above),
        members(heap, links, above) is Ok,
        0 <= k < links.len(),
    ensures
        tree(heap, links[k].1 as int, above) is Ok,
    decreases links.len(),
{
    if k < links.len() - 1 {
        lemma_value_has_tree(heap, links.drop_last(), above, k);
    }
}

/// No object that contains itself is converted: where an object has a
/// tree, no chain from it, each object holding the next, meets an object
/// twice, nor one of the objects above it.
pub proof fn lemma_tree_means_no_cycle(heap: Seq<HostObject>, path: Seq<int>, above: Set<int>)
    requires
        within(heap, above),
        path.len() > 0,
        chain(heap, path),
        tree(heap, path[0], above) is Ok,
    ensures
        path.no_duplicates(),
        forall|i: int| 0 <= i < path.len() ==> !above.contains(#[trigger] path[i]),
    decreases path.len(),
{
    let first = path[0];
    if path.len() > 1 {
        let rest = path.drop_first();
        let second = path[1];
        lemma_room(heap, above, first);
        match heap[first] {
            HostObject::List(refs) => {
                let k = choose|k: int| 0 <= k < refs@.len() && #[trigger] refs@[k] == second;
                lemma_item_has_tree(heap, refs@, above.insert(first), k);
            },
            HostObject::Dict(links) => {
                let k = choose|k: int| 0 <= k < links@.len() && (#[trigger] links@[k]).1 == second;
                lemma_value_has_tree(heap, links@, above.insert(first), k);
            },
            _ => {},
        }
        assert forall|i: int| 0 <= i < rest.len() - 1 implies holds(
            heap,
            #[trigger] rest[i],
            rest[i + 1],
        ) by {}
        lemma_tree_means_no_cycle(heap, rest, above.insert(first));
        assert forall|i: int, j: int| 0 <= i < path.len() && 0 <= j < path.len() && i != j implies path[i]
            != path[j] by {
            if i > 0 {
                assert(path[i] == rest[i - 1]);
            }
            if j > 0 {
                assert(path[j] == rest[j - 1]);
            }
        }
        assert forall|i: int| 0 <= i < path.len() implies !above.contains(#[trigger] path[i]) by {
            if i > 0 {
                assert(path[i] == rest[i - 1]);
            }
        }
    }
}

/// The references of the object point below `bound`.
pub open spec fn points_below(object: HostObject, bound: int) -> bool {
    match object {
        HostObject::List(refs) => forall|k: int|
            0 <= k < refs@.len() ==> (#[trigger] refs@[k]) < bound,
        HostObject::Dict(links) => forall|k: int|
            0 <= k < links@.len() ==> (#[trigger] links@[k]).0 < bound && links@[k].1 < bound,
        _ => true,
    }
}

/// Every reference of the heap points to an earlier object. Such a heap
/// holds no object that contains itself.
pub open spec fn layered(heap: Seq<HostObject>) -> bool {
    forall|i: int| 0 <= i < heap.len() ==> points_below(#[trigger] heap[i], i)
}

/// The heap `longer` begins with the objects of `heap`.
pub open spec fn extends(longer: Seq<HostObject>, heap: Seq<HostObject>) -> bool {
    heap.len() <= longer.len() && forall|i: int| 0 <= i < heap.len() ==> longer[i] == heap[i]
}

/// All of `above` lies at `bound` or after it.
pub open spec fn beyond(above: Set<int>, bound: int) -> bool {
    forall|x: int| above.contains(x) ==> x >= bound
}

/// What converting the host form of a tree gives: the tree, unless one of
/// its objects names a key twice.
pub open spec fn expected(value: Json) -> Result<Json, ConversionFault> {
    if value.wf() {
        Ok(value)
    } else {
        Err(ConversionFault::DuplicateKey)
    }
}

/// In a layered heap the tree of an object depends neither on the objects
/// that come after it nor on those that stand above it.
proof fn lemma_tree_stable(
    heap: Seq<HostObject>,
    longer: Seq<HostObject>,
    at: int,
    a1: Set<int>,
    a2: Set<int>,
)
    requires
        extends(longer, heap),
        layered(longer),
        0 <= at < heap.len(),
        within(heap, a1),
        within(longer, a2),
        beyond(a1, at + 1),
        beyond(a2, at + 1),
    ensures
        tree(heap, at, a1) == tree(longer, at, a2),
    decreases at, 2int, 0int,
{
    match heap[at] {
        HostObject::List(refs) => {
            lemma_room(heap, a1, at);
            lemma_room(longer, a2, at);
            lemma_trees_stable(heap, longer, refs@, at, a1.insert(at), a2.insert(at));
        },
        HostObject::Dict(links) => {
            lemma_room(heap, a1, at);
            lemma_room(longer, a2, at);
            lemma_members_stable(heap, longer, links@, at, a1.insert(at), a2.insert(at));
        },
        _ => {},
    }
}

proof fn lemma_trees_stable(
    heap: Seq<HostObject>,
    longer: Seq<HostObject>,
    refs: Seq<usize>,
    bound: int,
    a1: Set<int>,
    a2: Set<int>,
)
    requires
        extends(longer, heap),
        layered(longer),
        0 <= bound <= heap.len(),
        forall|k: int| 0 <= k < refs.len() ==> (#[trigger] refs[k]) < bound,
        within(heap, a1),
        within(longer, a2),
        beyond(a1, bound),
        beyond(a2, bound),
    ensures
        trees(heap, refs, a1) == trees(longer, refs, a2),
    decreases bound, 1int, refs.len(),
{
    if refs.len() > 0 {
        lemma_trees_stable(heap, longer, refs.drop_last(), bound, a1, a2);
        assert(refs[refs.len() - 1] < bound);
        lemma_tree_stable(heap, longer, refs.last() as int, a1, a2);
    }
}

proof fn lemma_members_stable(
    heap: Seq<HostObject>,
    longer: Seq<HostObject>,
    links: Seq<(usize, usize)>,
    bound: int,
    a1: Set<int>,
    a2: Set<int>,
)
    requires
        extends(longer, heap),
        layered(longer),
        0 <= bound <= heap.len(),
        forall|k: int|
            0 <= k < links.len() ==> (#[trigger] links[k]).0 < bound && links[k].1 < bound,
        within(heap, a1),
        within(longer, a2),
        beyond(a1, bound),
        beyond(a2, bound),
    ensures
        members(heap, links, a1) == members(longer, links, a2),
    decreases bound, 1int, links.len(),
{
    if links.len() > 0 {
        lemma_members_stable(heap, longer, links.drop_last(), bound, a1, a2);
        lemma_tree_stable(heap, longer, links.last().1 as int, a1, a2);
    }
}

/// Items that unfold as expected make a list that does.
proof fn lemma_trees_expected(
    heap: Seq<HostObject>,
    refs: Seq<usize>,
    items: Seq<Json>,
    above: Set<int>,
)
    requires
        within(heap, above),
        refs.len() == items.len(),
        forall|k: int|
            0 <= k < refs.len() ==> tree(heap, #[trigger] refs[k] as int, above) == expected(
                items[k],
            ),
    ensures
        trees(heap, refs, above) == (if all_wf(items) {
            Ok::<Seq<Json>, ConversionFault>(items)
        } else {
            Err(ConversionFault::DuplicateKey)
        }),
    decreases refs.len(),
{
    if refs.len() > 0 {
        let front = items.drop_last();
        assert forall|k: int| 0 <= k < refs.drop_last().len() implies tree(
            heap,
            #[trigger] refs.drop_last()[k] as int,
            above,
        ) == expected(front[k]) by {
            assert(refs.drop_last()[k] == refs[k]);
        }
        lemma_trees_expected(heap, refs.drop_last(), front, above);
        if all_wf(items) {
            assert forall|k: int| 0 <= k < front.len() implies (#[trigger] front[k]).wf() by {
                assert(items[k].wf());
            }
            assert(items.last().wf());
            assert(front.push(items.last()) =~= items);
        } else {
            if all_wf(front) {
                if items.last().wf() {
                    assert forall|k: int| 0 <= k < items.len() implies (#[trigger] items[k]).wf() by {
                        if k < front.len() {
                            assert(front[k].wf());
                        }
                    }
                }
            }
        }
    } else {
        assert(items =~= Seq::<Json>::empty());
    }
}

/// Entries that unfold as expected make members that do.
proof fn lemma_members_expected(
    heap: Seq<HostObject>,
    links: Seq<(usize, usize)>,
    found: Seq<Member>,
    above: Set<int>,
)
    requires
        within(heap, above),
        links.len() == found.len(),
        forall|k: int|
            0 <= k < links.len() ==> key_text(heap, (#[trigger] links[k]).0 as int) == Ok::<
                Seq<char>,
                ConversionFault,
            >(found[k].key) && tree(heap, links[k].1 as int, above) == expected(found[k].value),
    ensures
        members(heap, links, above) == (if all_values_wf(found) {
            Ok::<Seq<Member>, ConversionFault>(found)
        } else {
            Err(ConversionFault::DuplicateKey)
        }),
    decreases links.len(),
{
    if links.len() > 0 {
        let front = found.drop_last();
        assert forall|k: int| 0 <= k < links.drop_last().len() implies key_text(
            heap,
            (#[trigger] links.drop_last()[k]).0 as int,
        ) == Ok::<Seq<char>, ConversionFault>(front[k].key) && tree(
            heap,
            links.drop_last()[k].1 as int,
            above,
        ) == expected(front[k].value) by {
            assert(links.drop_last()[k] == links[k]);
        }
        lemma_members_expected(heap, links.drop_last(), front, above);
        if all_values_wf(found) {
            assert forall|k: int| 0 <= k < front.len() implies (#[trigger] front[k]).value.wf() by {
                assert(found[k].value.wf());
            }
            assert(found.last().value.wf());
            assert(front.push(found.last()) =~= found);
        } else {
            if all_values_wf(front) {
                if found.last().value.wf() {
                    assert forall|k: int| 0 <= k < found.len() implies (
                    #[trigger] found[k]).value.wf() by {
                        if k < front.len() {
                            assert(front[k].value.wf());
                        }
                    }
                }
            }
        }
    } else {
        assert(found =~= Seq::<Member>::empty());
    }
}

/// Adds the host form of a value to the heap, after the objects that it
/// refers to, and says where it stands.
fn emit(value: &DynamicValue, objects: &mut Vec<HostObject>) -> (at: usize)
    requires
        layered(old(objects)@),
    ensures
        layered(final(objects)@),
        extends(final(objects)@, old(objects)@),
        at == final(objects)@.len() - 1,
        old(objects)@.len() <= at,
        tree(final(objects)@, at as int, Set::empty()) == expected(value@),
    decreases value,
{
    let ghost start = objects@;
    let object = match value {
        DynamicValue::Null => HostObject::Null,
        DynamicValue::Bool(b) => HostObject::Bool(*b),
        DynamicValue::Number(n) => HostObject::Number(n.clone()),
        DynamicValue::String(s) => HostObject::Str(s.clone()),
        DynamicValue::Array(items) => {
            let mut refs: Vec<usize> = Vec::new();
            let mut i: usize = 0;
            while i < items.len()
                invariant
                    i <= items.len(),
                    refs@.len() == i,
                    *value == DynamicValue::Array(*items),
                    layered(objects@),
                    extends(objects@, start),
                    forall|k: int|
                        0 <= k < i ==> (#[trigger] refs@[k]) < objects@.len() && tree(
                            objects@,
                            refs@[k] as int,
                            Set::empty(),
                        ) == expected(items@[k]@),
                decreases items.len() - i,
            {
                proof {
                    assert(decreases_to!(*value => value->Array_0));
                }
                let ghost before = objects@;
                let at = emit(&items[i], objects);
                proof {
                    assert forall|k: int| 0 <= k < i implies tree(
                        objects@,
                        (#[trigger] refs@[k]) as int,
                        Set::empty(),
                    ) == expected(items@[k]@) by {
                        lemma_tree_stable(
                            before,
                            objects@,
                            refs@[k] as int,
                            Set::empty(),
                            Set::empty(),
                        );
                    }
                }
                refs.push(at);
                i += 1;
            }
            proof {
                let heap = objects@;
                let object = HostObject::List(refs);
                let longer = heap.push(object);
                let at = heap.len() as int;
                let above = Set::<int>::empty().insert(at);
                let wanted = array_view(items@);
                assert(layered(longer)) by {
                    assert forall|j: int| 0 <= j < longer.len() implies points_below(
                        #[trigger] longer[j],
                        j,
                    ) by {}
                }
                assert forall|k: int| 0 <= k < refs@.len() implies tree(
                    longer,
                    #[trigger] refs@[k] as int,
                    above,
                ) == expected(wanted[k]) by {
                    lemma_tree_stable(heap, longer, refs@[k] as int, Set::empty(), above);
                }
                lemma_trees_expected(longer, refs@, wanted, above);
                lemma_array_view(*items);
                lemma_wf_array(wanted);
            }
            HostObject::List(refs)
        },
        DynamicValue::Object(pairs) => {
            let mut links: Vec<(usize, usize)> = Vec::new();
            let mut i: usize = 0;
            while i < pairs.len()
                invariant
                    i <= pairs.len(),
                    links@.len() == i,
                    *value == DynamicValue::Object(*pairs),
                    layered(objects@),
                    extends(objects@, start),
                    forall|k: int|
                        0 <= k < i ==> (#[trigger] links@[k]).0 < objects@.len() && links@[k].1
                            < objects@.len() && key_text(objects@, links@[k].0 as int) == Ok::<
                            Seq<char>,
                            ConversionFault,
                        >(pairs@[k].0@) && tree(objects@, links@[k].1 as int, Set::empty())
                            == expected(pairs@[k].1@),
                decreases pairs.len() - i,
            {
                proof {
                    assert(decreases_to!(*value => value->Object_0));
                }
                let ghost before = objects@;
                objects.push(HostObject::Str(pairs[i].0.clone()));
                let key_at = objects.len() - 1;
                let ghost keyed = objects@;
                assert(layered(keyed)) by {
                    assert forall|j: int| 0 <= j < keyed.len() implies points_below(
                        #[trigger] keyed[j],
                        j,
                    ) by {}
                }
                let value_at = emit(&pairs[i].1, objects);
                proof {
                    assert forall|k: int| 0 <= k < i implies key_text(
                        objects@,
                        (#[trigger] links@[k]).0 as int,
                    ) == Ok::<Seq<char>, ConversionFault>(pairs@[k].0@) && tree(
                        objects@,
                        links@[k].1 as int,
                        Set::empty(),
                    ) == expected(pairs@[k].1@) by {
                        lemma_tree_stable(
                            before,
                            objects@,
                            links@[k].1 as int,
                            Set::empty(),
                            Set::empty(),
                        );
                    }
                }
                links.push((key_at, value_at));
                i += 1;
            }
            proof {
                let heap = objects@;
                let object = HostObject::Dict(links);
                let longer = heap.push(object);
                let at = heap.len() as int;
                let above = Set::<int>::empty().insert(at);
                let wanted = object_view(pairs@);
                assert(layered(longer)) by {
                    assert forall|j: int| 0 <= j < longer.len() implies points_below(
                        #[trigger] longer[j],
                        j,
                    ) by {}
                }
                assert forall|k: int| 0 <= k < links@.len() implies key_text(
                    longer,
                    (#[trigger] links@[k]).0 as int,
                ) == Ok::<Seq<char>, ConversionFault>(wanted[k].key) && tree(
                    longer,
                    links@[k].1 as int,
                    above,
                ) == expected(wanted[k].value) by {
                    lemma_tree_stable(heap, longer, links@[k].1 as int, Set::empty(), above);
                }
                lemma_members_expected(longer, links@, wanted, above);
                lemma_object_view(*pairs);
                lemma_wf_object(wanted);
            }
            HostObject::Dict(links)
        },
    };
    objects.push(object);
    proof {
        assert(layered(objects@)) by {
            assert forall|j: int| 0 <= j < objects@.len() implies points_below(
                #[trigger] objects@[j],
                j,
            ) by {}
        }
    }
    objects.len() - 1
}

/// The host form of a dynamic value: a heap and the place of the object
/// that holds the value. Converting that object gives the value back,
/// unless the value names a key twice in one object: then it is refused.
pub fn from_dynamic(value: &DynamicValue) -> (r: (HostHeap, usize))
    ensures
        layered(r.0.objects@),
        r.1 < r.0.objects@.len(),
        tree(r.0.objects@, r.1 as int, Set::empty()) == expected(value@),
{
    let mut objects: Vec<HostObject> = Vec::new();
    let root = emit(value, &mut objects);
    (HostHeap { objects }, root)
}

} // verus!
