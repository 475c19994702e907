//! The recursion and defaultability analysis over a registry.
//!
//! Both queries walk the semantic reference graph that `Type::Named`
//! references span through an [`ItemMap`]. That graph may be cyclic, so
//! the walk carries the set of names already followed on the current
//! path and never follows a name twice; this bounds every query by the
//! number of registered items and is what guarantees termination on
//! mutual reference cycles. A name already on the path contributes
//! nothing new: a containment query has then already matched the target
//! or never will along that path, and a defaultability query has met a
//! value that would have to contain itself to be constructed, which no
//! finite value does.

use vstd::prelude::*;
use vstd::set_lib::lemma_set_subset_finite;

use crate::ident::Id;
use crate::items::{Field, Variant};
use crate::registry::{Item, ItemMap};
use crate::typebuilder::Type;

verus! {

broadcast use vstd::set::group_set_axioms;

/// Following one more registered, not yet followed name strictly shrinks
/// the set of names still available to follow.
pub proof fn lemma_insert_shrinks_difference(
    dom: Set<Seq<char>>,
    visited: Set<Seq<char>>,
    n: Seq<char>,
)
    requires
        dom.finite(),
        dom.contains(n),
        !visited.contains(n),
    ensures
        dom.difference(visited.insert(n)).len() < dom.difference(visited).len(),
{
    let d1 = dom.difference(visited);
    let d2 = dom.difference(visited.insert(n));
    assert(d2 =~= d1.remove(n));
    assert(d1.subset_of(dom));
    lemma_set_subset_finite(dom, d1);
    assert(d1.contains(n));
    assert(d1.len() == d1.remove(n).len() + 1);
}

/// The structural height of a type expression, bounding the depth of
/// any walk that stays inside one expression tree.
pub open spec fn type_height(t: Type) -> nat
    decreases t,
{
    match t {
        Type::Primitive(_) => 1,
        Type::Named(_) => 1,
        Type::Indirected(inner) => 1 + type_height(*inner),
        Type::Sequence(inner) => 1 + type_height(*inner),
        Type::Optional(inner) => 1 + type_height(*inner),
        Type::Mapping(inner) => 1 + type_height(*inner),
        Type::Reference(inner) => 1 + type_height(*inner),
        Type::Either(left, right) => 1 + (if type_height(*left) >= type_height(*right) {
            type_height(*left)
        } else {
            type_height(*right)
        }),
    }
}

/// `target` is reachable from `t` without crossing a heap indirection,
/// following only names not in `visited`. Borrows, indirections,
/// primitives and sequences never propagate containment; a two-way
/// alternative propagates it only when **both** operands do, since the
/// alternative's own tag bounds the value unless every branch explodes;
/// a named reference matches the target directly or delegates to the
/// referenced item, marking the name as followed.
pub open spec fn type_contains(
    t: Type,
    target: Seq<char>,
    reg: Map<Seq<char>, Item>,
    visited: Set<Seq<char>>,
) -> bool
    decreases reg.dom().difference(visited).len(), 0nat, type_height(t),
        when reg.dom().finite()
{
    match t {
        Type::Optional(inner) => type_contains(*inner, target, reg, visited),
        Type::Mapping(inner) => type_contains(*inner, target, reg, visited),
        Type::Either(left, right) => type_contains(*left, target, reg, visited) && type_contains(
            *right,
            target,
            reg,
            visited,
        ),
        Type::Named(id) => {
            proof {
                if reg.dom().finite() && reg.dom().contains(id@) && !visited.contains(id@) {
                    lemma_insert_shrinks_difference(reg.dom(), visited, id@);
                }
            }
            id@ == target || (reg.dom().contains(id@) && !visited.contains(id@)
                && item_members_contain(reg[id@], target, reg, visited.insert(id@)))
        },
        _ => false,
    }
}

/// Some member of `item` (a field, or a variant carrying a payload) has a
/// type that contains `target`; see [`type_contains`].
pub open spec fn item_members_contain(
    item: Item,
    target: Seq<char>,
    reg: Map<Seq<char>, Item>,
    visited: Set<Seq<char>>,
) -> bool
    decreases reg.dom().difference(visited).len(), 1nat, 0nat,
        when reg.dom().finite()
{
    exists|i: int|
        0 <= i < item.member_count() && (#[trigger] item.member_type(i) matches Some(t)
            && type_contains(t, target, reg, visited))
}

/// A value of `t` can be trivially constructed, following only names not
/// in `visited`. Primitives, sequences, options and maps have an
/// unambiguous empty value; an indirection is defaultable when its inner
/// type is; a two-way alternative and a borrow never are; a named
/// reference delegates to the referenced item, and a dangling or already
/// followed name counts as not defaultable.
pub open spec fn type_defaultable(
    t: Type,
    reg: Map<Seq<char>, Item>,
    visited: Set<Seq<char>>,
) -> bool
    decreases reg.dom().difference(visited).len(), 0nat, type_height(t),
        when reg.dom().finite()
{
    match t {
        Type::Primitive(_) => true,
        Type::Sequence(_) => true,
        Type::Optional(_) => true,
        Type::Mapping(_) => true,
        Type::Indirected(inner) => type_defaultable(*inner, reg, visited),
        Type::Either(_, _) => false,
        Type::Reference(_) => false,
        Type::Named(id) => {
            proof {
                if reg.dom().finite() && reg.dom().contains(id@) && !visited.contains(id@) {
                    lemma_insert_shrinks_difference(reg.dom(), visited, id@);
                }
            }
            reg.dom().contains(id@) && !visited.contains(id@) && item_members_defaultable(
                reg[id@],
                reg,
                visited.insert(id@),
            )
        },
    }
}

/// Every field of a record has a defaultable type; a union is never
/// defaultable — a tagged union has no canonical default variant, by
/// deliberate policy.
pub open spec fn item_members_defaultable(
    item: Item,
    reg: Map<Seq<char>, Item>,
    visited: Set<Seq<char>>,
) -> bool
    decreases reg.dom().difference(visited).len(), 1nat, 0nat,
        when reg.dom().finite()
{
    match item {
        Item::Record(s) => forall|i: int|
            0 <= i < s.fields@.len() ==> type_defaultable(
                #[trigger] s.fields@[i].typ,
                reg,
                visited,
            ),
        Item::Union(_) => false,
    }
}

/// `target` is reachable from `t` through the registry without crossing
/// a heap indirection.
pub open spec fn spec_type_contains(t: Type, target: Seq<char>, reg: Map<Seq<char>, Item>) -> bool {
    type_contains(t, target, reg, Set::empty())
}

/// Some member of `item` contains `target`; see [`spec_type_contains`].
pub open spec fn spec_item_contains(
    item: Item,
    target: Seq<char>,
    reg: Map<Seq<char>, Item>,
) -> bool {
    item_members_contain(item, target, reg, Set::empty())
}

/// `item` value-contains its own name: it describes a value of unbounded
/// size unless one of the implicated references is re-expressed through
/// an indirection.
pub open spec fn spec_item_recursive(item: Item, reg: Map<Seq<char>, Item>) -> bool {
    spec_item_contains(item, item.spec_name(), reg)
}

/// A value of `t` can be trivially constructed against the registry.
pub open spec fn spec_type_defaultable(t: Type, reg: Map<Seq<char>, Item>) -> bool {
    type_defaultable(t, reg, Set::empty())
}

/// Every field of `item` has a defaultable type (and `item` is a
/// record); see [`spec_type_defaultable`].
pub open spec fn spec_item_defaultable(item: Item, reg: Map<Seq<char>, Item>) -> bool {
    item_members_defaultable(item, reg, Set::empty())
}

/// The payload of `v` contains `target`; a variant without payload
/// contains nothing.
pub open spec fn spec_variant_contains(v: Variant, target: Seq<char>, reg: Map<Seq<char>, Item>) -> bool {
    match v.typ {
        Some(t) => spec_type_contains(t, target, reg),
        None => false,
    }
}

/// A type whose empty value needs nothing from the registry: a
/// primitive, a sequence, an option or a map.
pub open spec fn trivially_defaultable(t: Type) -> bool {
    ||| t matches Type::Primitive(_)
    ||| t matches Type::Sequence(_)
    ||| t matches Type::Optional(_)
    ||| t matches Type::Mapping(_)
}

/// A record whose every member type is a primitive, a sequence, an
/// option or a map is defaultable, in any registry.
pub proof fn lemma_simple_record_defaultable(item: Item, reg: Map<Seq<char>, Item>)
    requires
        reg.dom().finite(),
        item matches Item::Record(_),
        forall|i: int|
            0 <= i < item.member_count() ==> (#[trigger] item.member_type(i) matches Some(t)
                && trivially_defaultable(t)),
    ensures
        spec_item_defaultable(item, reg),
{
    match item {
        Item::Record(s) => {
            assert forall|i: int| 0 <= i < s.fields@.len() implies type_defaultable(
                #[trigger] s.fields@[i].typ,
                reg,
                Set::empty(),
            ) by {
                assert(item.member_type(i) == Some(s.fields@[i].typ));
            }
        },
        Item::Union(_) => {},
    }
}

/// A record with a member of two-alternative type is not defaultable: no
/// canonical default can be chosen between two alternatives.
pub proof fn lemma_either_member_not_defaultable(item: Item, reg: Map<Seq<char>, Item>, i: int)
    requires
        reg.dom().finite(),
        item matches Item::Record(_),
        0 <= i < item.member_count(),
        item.member_type(i) matches Some(t) && t matches Type::Either(_, _),
    ensures
        !spec_item_defaultable(item, reg),
{
    match item {
        Item::Record(s) => {
            assert(item.member_type(i) == Some(s.fields@[i].typ));
            assert(!type_defaultable(s.fields@[i].typ, reg, Set::empty()));
        },
        Item::Union(_) => {},
    }
}

/// A union is never defaultable, whatever its variants hold: a tagged
/// union has no canonical default variant.
pub proof fn lemma_union_never_defaultable(item: Item, reg: Map<Seq<char>, Item>)
    requires
        reg.dom().finite(),
        item matches Item::Union(_),
    ensures
        !spec_item_defaultable(item, reg),
{
}

/// An item with a member whose type is the bare name of the item itself
/// value-contains its own name, whatever the registry holds.
pub proof fn lemma_self_named_member_recursive(item: Item, reg: Map<Seq<char>, Item>, i: int)
    requires
        reg.dom().finite(),
        0 <= i < item.member_count(),
        item.member_type(i) matches Some(t) && (t matches Type::Named(id) && id@
            == item.spec_name()),
    ensures
        spec_item_recursive(item, reg),
{
    match item.member_type(i) {
        Some(t) => {
            assert(type_contains(t, item.spec_name(), reg, Set::empty()));
            assert(0 <= i < item.member_count() && (item.member_type(i) matches Some(t2)
                && type_contains(t2, item.spec_name(), reg, Set::empty())));
        },
        None => {},
    }
}

/// A heap indirection stops containment outright: nothing is reachable
/// without crossing it.
pub proof fn lemma_indirection_blocks_containment(
    t: Type,
    target: Seq<char>,
    reg: Map<Seq<char>, Item>,
    visited: Set<Seq<char>>,
)
    requires
        reg.dom().finite(),
        t matches Type::Indirected(_),
    ensures
        !type_contains(t, target, reg, visited),
{
}

/// An item whose every member type sits behind a heap indirection does
/// not value-contain its own name.
pub proof fn lemma_indirected_members_not_recursive(item: Item, reg: Map<Seq<char>, Item>)
    requires
        reg.dom().finite(),
        forall|i: int|
            0 <= i < item.member_count() ==> (#[trigger] item.member_type(i) matches Some(t)
                ==> t matches Type::Indirected(_)),
    ensures
        !spec_item_recursive(item, reg),
{
    assert forall|i: int| 0 <= i < item.member_count() implies !(#[trigger] item.member_type(i)
        matches Some(t) && type_contains(t, item.spec_name(), reg, Set::empty())) by {
        match item.member_type(i) {
            Some(t) => {
                lemma_indirection_blocks_containment(t, item.spec_name(), reg, Set::empty());
            },
            None => {},
        }
    }
}

/// Two items registered under their own distinct names, each holding a
/// member that is the bare name of the other, are both recursive — and
/// the analysis establishes this on the cyclic reference graph, where
/// the visited set is what bounds the walk.
pub proof fn lemma_mutual_recursion(
    a: Item,
    b: Item,
    reg: Map<Seq<char>, Item>,
    ia: int,
    ib: int,
)
    requires
        reg.dom().finite(),
        a.spec_name() != b.spec_name(),
        reg.dom().contains(a.spec_name()),
        reg[a.spec_name()] == a,
        reg.dom().contains(b.spec_name()),
        reg[b.spec_name()] == b,
        0 <= ia < a.member_count(),
        a.member_type(ia) matches Some(t) && (t matches Type::Named(id) && id@ == b.spec_name()),
        0 <= ib < b.member_count(),
        b.member_type(ib) matches Some(t) && (t matches Type::Named(id) && id@ == a.spec_name()),
    ensures
        spec_item_recursive(a, reg),
        spec_item_recursive(b, reg),
{
    let an = a.spec_name();
    let bn = b.spec_name();
    match b.member_type(ib) {
        Some(tb) => {
            assert(type_contains(tb, an, reg, Set::empty().insert(bn)));
            assert(0 <= ib < b.member_count() && (b.member_type(ib) matches Some(t2)
                && type_contains(t2, an, reg, Set::empty().insert(bn))));
            assert(item_members_contain(b, an, reg, Set::empty().insert(bn)));
        },
        None => {},
    }
    match a.member_type(ia) {
        Some(ta) => {
            assert(type_contains(ta, an, reg, Set::empty()));
            assert(0 <= ia < a.member_count() && (a.member_type(ia) matches Some(t2)
                && type_contains(t2, an, reg, Set::empty())));
        },
        None => {},
    }
    match a.member_type(ia) {
        Some(ta) => {
            assert(type_contains(ta, bn, reg, Set::empty().insert(an)));
            assert(0 <= ia < a.member_count() && (a.member_type(ia) matches Some(t2)
                && type_contains(t2, bn, reg, Set::empty().insert(an))));
            assert(item_members_contain(a, bn, reg, Set::empty().insert(an)));
        },
        None => {},
    }
    match b.member_type(ib) {
        Some(tb) => {
            assert(type_contains(tb, bn, reg, Set::empty()));
            assert(0 <= ib < b.member_count() && (b.member_type(ib) matches Some(t2)
                && type_contains(t2, bn, reg, Set::empty())));
        },
        None => {},
    }
}

/// A two-way alternative whose operands both name the target contains
/// it: both branches match.
pub proof fn lemma_either_both_named_contains(t: Type, target: Seq<char>, reg: Map<Seq<char>, Item>)
    requires
        reg.dom().finite(),
        t matches Type::Either(l, r) && (*l matches Type::Named(i1) && i1@ == target) && (*r
            matches Type::Named(i2) && i2@ == target),
    ensures
        spec_type_contains(t, target, reg),
{
    match t {
        Type::Either(l, r) => {
            assert(type_contains(*l, target, reg, Set::empty()));
            assert(type_contains(*r, target, reg, Set::empty()));
        },
        _ => {},
    }
}

/// A two-way alternative with a primitive operand contains nothing: one
/// branch already fails, and containment asks for both.
pub proof fn lemma_either_primitive_not_contains(
    t: Type,
    target: Seq<char>,
    reg: Map<Seq<char>, Item>,
)
    requires
        reg.dom().finite(),
        t matches Type::Either(l, r) && *r matches Type::Primitive(_),
    ensures
        !spec_type_contains(t, target, reg),
{
    match t {
        Type::Either(l, r) => {
            assert(!type_contains(*r, target, reg, Set::empty()));
        },
        _ => {},
    }
}

spec fn id_set(ids: Seq<Id>) -> Set<Seq<char>> {
    Set::new(|k: Seq<char>| exists|i: int| 0 <= i < ids.len() && ids[i]@ == k)
}

proof fn lemma_id_set_push(ids: Seq<Id>, x: Id)
    ensures
        id_set(ids.push(x)) =~= id_set(ids).insert(x@),
{
    assert forall|k: Seq<char>| id_set(ids.push(x)).contains(k) implies id_set(ids).insert(
        x@,
    ).contains(k) by {
        let i = choose|i: int| 0 <= i < ids.push(x).len() && ids.push(x)[i]@ == k;
        if i < ids.len() {
            assert(ids[i]@ == k);
        } else {
            assert(ids.push(x)[i] == x);
        }
    }
    assert forall|k: Seq<char>| id_set(ids).insert(x@).contains(k) implies id_set(
        ids.push(x),
    ).contains(k) by {
        if k == x@ {
            assert(ids.push(x)[ids.len() as int]@ == k);
        } else {
            let i = choose|i: int| 0 <= i < ids.len() && ids[i]@ == k;
            assert(ids.push(x)[i]@ == k);
        }
    }
}

fn contains_id(v: &Vec<Id>, id: &Id) -> (r: bool)
    ensures
        r == id_set(v@).contains(id@),
{
    let mut i: usize = 0;
    while i < v.len()
        invariant
            0 <= i <= v@.len(),
            forall|j: int| 0 <= j < i ==> v@[j]@ != id@,
        decreases v@.len() - i,
    {
        if v[i] == *id {
            return true;
        }
        i += 1;
    }
    false
}

fn clone_ids(v: &Vec<Id>) -> (r: Vec<Id>)
    ensures
        r@ == v@,
{
    let mut out: Vec<Id> = Vec::new();
    let mut i: usize = 0;
    while i < v.len()
        invariant
            0 <= i <= v@.len(),
            out@ == v@.subrange(0, i as int),
        decreases v@.len() - i,
    {
        out.push(v[i].clone());
        proof {
            assert(v@.subrange(0, i + 1) =~= v@.subrange(0, i as int).push(v@[i as int]));
        }
        i += 1;
    }
    proof {
        assert(v@.subrange(0, v@.len() as int) =~= v@);
    }
    out
}

impl Type {
    fn contains_from(&self, target: &Id, map: &ItemMap, visited: &Vec<Id>) -> (b: bool)
        requires
            map.wf(),
        ensures
            b == type_contains(*self, target@, map@, id_set(visited@)),
        decreases map@.dom().difference(id_set(visited@)).len(), 0nat, type_height(*self),
    {
        proof {
            map.lemma_dom_finite();
        }
        match self {
            Type::Optional(inner) => inner.contains_from(target, map, visited),
            Type::Mapping(inner) => inner.contains_from(target, map, visited),
            Type::Either(left, right) => {
                let lb = left.contains_from(target, map, visited);
                let rb = right.contains_from(target, map, visited);
                lb && rb
            },
            Type::Named(id) => {
                if *id == *target {
                    true
                } else if contains_id(visited, id) {
                    false
                } else {
                    match map.get(id) {
                        None => false,
                        Some(item) => {
                            let mut v2 = clone_ids(visited);
                            v2.push(id.clone());
                            proof {
                                lemma_id_set_push(visited@, *id);
                                assert(id_set(v2@) =~= id_set(visited@).insert(id@));
                                lemma_insert_shrinks_difference(map@.dom(), id_set(visited@), id@);
                            }
                            item.members_contain_from(target, map, &v2)
                        },
                    }
                }
            },
            Type::Primitive(_) => false,
            Type::Indirected(_) => false,
            Type::Sequence(_) => false,
            Type::Reference(_) => false,
        }
    }

    fn defaultable_from(&self, map: &ItemMap, visited: &Vec<Id>) -> (b: bool)
        requires
            map.wf(),
        ensures
            b == type_defaultable(*self, map@, id_set(visited@)),
        decreases map@.dom().difference(id_set(visited@)).len(), 0nat, type_height(*self),
    {
        proof {
            map.lemma_dom_finite();
        }
        match self {
            Type::Primitive(_) => true,
            Type::Sequence(_) => true,
            Type::Optional(_) => true,
            Type::Mapping(_) => true,
            Type::Indirected(inner) => inner.defaultable_from(map, visited),
            Type::Either(_, _) => false,
            Type::Reference(_) => false,
            Type::Named(id) => {
                if contains_id(visited, id) {
                    false
                } else {
                    match map.get(id) {
                        None => false,
                        Some(item) => {
                            let mut v2 = clone_ids(visited);
                            v2.push(id.clone());
                            proof {
                                lemma_id_set_push(visited@, *id);
                                assert(id_set(v2@) =~= id_set(visited@).insert(id@));
                                lemma_insert_shrinks_difference(map@.dom(), id_set(visited@), id@);
                            }
                            item.members_defaultable_from(map, &v2)
                        },
                    }
                }
            },
        }
    }

    /// Whether `id` is reachable from this type without crossing a heap
    /// indirection, resolving named references through `map`.
    pub fn contains_unboxed_id(&self, id: &Id, map: &ItemMap) -> (b: bool)
        requires
            map.wf(),
        ensures
            b == spec_type_contains(*self, id@, map@),
    {
        let visited: Vec<Id> = Vec::new();
        proof {
            assert(id_set(visited@) =~= Set::<Seq<char>>::empty());
        }
        self.contains_from(id, map, &visited)
    }

    /// Whether a value of this type can be trivially constructed,
    /// resolving named references through `map`.
    pub fn is_defaultable(&self, map: &ItemMap) -> (b: bool)
        requires
            map.wf(),
        ensures
            b == spec_type_defaultable(*self, map@),
    {
        let visited: Vec<Id> = Vec::new();
        proof {
            assert(id_set(visited@) =~= Set::<Seq<char>>::empty());
        }
        self.defaultable_from(map, &visited)
    }
}

impl Item {
    #[verifier::loop_isolation(false)]
    fn members_contain_from(&self, target: &Id, map: &ItemMap, visited: &Vec<Id>) -> (b: bool)
        requires
            map.wf(),
        ensures
            b == item_members_contain(*self, target@, map@, id_set(visited@)),
        decreases map@.dom().difference(id_set(visited@)).len(), 1nat, 0nat,
    {
        proof {
            map.lemma_dom_finite();
        }
        match self {
            Item::Record(s) => {
                let mut i: usize = 0;
                while i < s.fields.len()
                    invariant
                        map.wf(),
                        0 <= i <= s.fields@.len(),
                        forall|j: int|
                            0 <= j < i ==> !type_contains(
                                #[trigger] s.fields@[j].typ,
                                target@,
                                map@,
                                id_set(visited@),
                            ),
                    decreases s.fields@.len() - i,
                {
                    if s.fields[i].typ.contains_from(target, map, visited) {
                        proof {
                            assert(self.member_type(i as int) matches Some(t) && type_contains(
                                t,
                                target@,
                                map@,
                                id_set(visited@),
                            ));
                        }
                        return true;
                    }
                    i += 1;
                }
                proof {
                    assert forall|j: int| 0 <= j < self.member_count() implies !(
                    #[trigger] self.member_type(j) matches Some(t) && type_contains(
                        t,
                        target@,
                        map@,
                        id_set(visited@),
                    )) by {
                        assert(self.member_type(j) == Some(s.fields@[j].typ));
                    }
                }
                false
            },
            Item::Union(e) => {
                let mut i: usize = 0;
                while i < e.variants.len()
                    invariant
                        map.wf(),
                        0 <= i <= e.variants@.len(),
                        forall|j: int|
                            0 <= j < i ==> !(#[trigger] e.variants@[j].typ matches Some(t)
                                && type_contains(t, target@, map@, id_set(visited@))),
                    decreases e.variants@.len() - i,
                {
                    match &e.variants[i].typ {
                        Some(t) => {
                            if t.contains_from(target, map, visited) {
                                proof {
                                    assert(self.member_type(i as int) matches Some(t2)
                                        && type_contains(t2, target@, map@, id_set(visited@)));
                                }
                                return true;
                            }
                        },
                        None => {},
                    }
                    i += 1;
                }
                proof {
                    assert forall|j: int| 0 <= j < self.member_count() implies !(
                    #[trigger] self.member_type(j) matches Some(t) && type_contains(
                        t,
                        target@,
                        map@,
                        id_set(visited@),
                    )) by {
                        assert(self.member_type(j) == e.variants@[j].typ);
                    }
                }
                false
            },
        }
    }

    #[verifier::loop_isolation(false)]
    fn members_defaultable_from(&self, map: &ItemMap, visited: &Vec<Id>) -> (b: bool)
        requires
            map.wf(),
        ensures
            b == item_members_defaultable(*self, map@, id_set(visited@)),
        decreases map@.dom().difference(id_set(visited@)).len(), 1nat, 0nat,
    {
        proof {
            map.lemma_dom_finite();
        }
        match self {
            Item::Record(s) => {
                let mut i: usize = 0;
                while i < s.fields.len()
                    invariant
                        map.wf(),
                        0 <= i <= s.fields@.len(),
                        forall|j: int|
                            0 <= j < i ==> type_defaultable(
                                #[trigger] s.fields@[j].typ,
                                map@,
                                id_set(visited@),
                            ),
                    decreases s.fields@.len() - i,
                {
                    if !s.fields[i].typ.defaultable_from(map, visited) {
                        return false;
                    }
                    i += 1;
                }
                true
            },
            Item::Union(_) => false,
        }
    }

    /// Whether every member of the item has a defaultable type. A record
    /// with no members is vacuously defaultable; a union never is.
    pub fn is_defaultable(&self, map: &ItemMap) -> (b: bool)
        requires
            map.wf(),
        ensures
            b == spec_item_defaultable(*self, map@),
    {
        let visited: Vec<Id> = Vec::new();
        proof {
            assert(id_set(visited@) =~= Set::<Seq<char>>::empty());
        }
        self.members_defaultable_from(map, &visited)
    }

    /// Whether `id` is reachable from any member of the item without
    /// crossing a heap indirection.
    pub fn contains_unboxed_id(&self, id: &Id, map: &ItemMap) -> (b: bool)
        requires
            map.wf(),
        ensures
            b == spec_item_contains(*self, id@, map@),
    {
        let visited: Vec<Id> = Vec::new();
        proof {
            assert(id_set(visited@) =~= Set::<Seq<char>>::empty());
        }
        self.members_contain_from(id, map, &visited)
    }

    /// Whether the item value-contains its own name. An item for which
    /// this holds describes a value of unbounded size unless at least one
    /// implicated reference is re-expressed through an indirection.
    pub fn is_recursive(&self, map: &ItemMap) -> (b: bool)
        requires
            map.wf(),
        ensures
            b == spec_item_recursive(*self, map@),
    {
        self.contains_unboxed_id(self.name(), map)
    }
}

impl Field {
    /// Whether a value of this field's type can be trivially constructed.
    pub fn is_defaultable(&self, map: &ItemMap) -> (b: bool)
        requires
            map.wf(),
        ensures
            b == spec_type_defaultable(self.typ, map@),
    {
        self.typ.is_defaultable(map)
    }

    /// Whether `id` is reachable from this field's type without crossing
    /// a heap indirection.
    pub fn contains_unboxed_id(&self, id: &Id, map: &ItemMap) -> (b: bool)
        requires
            map.wf(),
        ensures
            b == spec_type_contains(self.typ, id@, map@),
    {
        self.typ.contains_unboxed_id(id, map)
    }
}

impl Variant {
    /// Whether `id` is reachable from this variant's payload type
    /// without crossing a heap indirection; a variant without payload
    /// contains nothing.
    pub fn contains_unboxed_id(&self, id: &Id, map: &ItemMap) -> (b: bool)
        requires
            map.wf(),
        ensures
            b == spec_variant_contains(*self, id@, map@),
    {
        match &self.typ {
            Some(t) => t.contains_unboxed_id(id, map),
            None => false,
        }
    }
}

} // verus!
