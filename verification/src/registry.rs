//! The item registry: the context every relational query is evaluated
//! against.
//!
//! An [`Item`] is a registry member — a record or a tagged union; the
//! closed pair of variants is deliberate, so every query can match
//! exhaustively. An [`ItemMap`] maps names to items, is built once from a
//! list of items (failing fast on the first duplicated name), and is
//! immutable afterwards.

use vstd::prelude::*;
use vstd::string::StringExecFns;

use crate::error::Error;
use crate::ident::Id;
use crate::items::{is_first_dup, names_distinct, spec_variant_named_root, Enum, Struct};
use crate::order::{lemma_lex_irreflexive, lemma_lex_transitive, lemma_lex_trichotomy, lex_lt, str_lt};
use crate::render::Render;
use crate::typebuilder::spec_named_root;

verus! {

/// A registry member: a record or a tagged union. Wrapper and alias
/// declarations render but are not registry members, so they take no part
/// in the recursion analysis.
#[derive(Debug)]
pub enum Item {
    /// A record declaration.
    Record(Struct),
    /// A tagged-union declaration.
    Union(Enum),
}

impl Item {
    /// The declared name of the item.
    pub open spec fn spec_name(&self) -> Seq<char> {
        match self {
            Item::Record(s) => s.name@,
            Item::Union(e) => e.name@,
        }
    }

    /// The declared name of the item.
    pub fn name(&self) -> (r: &Id)
        ensures
            r@ == self.spec_name(),
    {
        match self {
            Item::Record(s) => &s.name,
            Item::Union(e) => &e.name,
        }
    }

    /// The number of members (fields or variants) of the item.
    pub open spec fn member_count(&self) -> int {
        match self {
            Item::Record(s) => s.fields@.len() as int,
            Item::Union(e) => e.variants@.len() as int,
        }
    }

    /// The type carried by member `i`: a field's type, or a variant's
    /// payload type if it has one.
    pub open spec fn member_type(&self, i: int) -> Option<crate::typebuilder::Type>
        recommends
            0 <= i < self.member_count(),
    {
        match self {
            Item::Record(s) => Some(s.fields@[i].typ),
            Item::Union(e) => e.variants@[i].typ,
        }
    }

    /// Every named root referenced by the members of the item, in
    /// declaration order; see [`item_named_roots`].
    pub fn get_named_types(&self) -> (r: Vec<Id>)
        ensures
            r@.map_values(|id: Id| id@) == item_named_roots(*self),
    {
        match self {
            Item::Record(s) => {
                let mut out: Vec<Id> = Vec::new();
                let mut i: usize = 0;
                while i < s.fields.len()
                    invariant
                        0 <= i <= s.fields@.len(),
                        out@.map_values(|id: Id| id@) == roots_of_fields(
                            s.fields@.subrange(0, i as int),
                        ),
                    decreases s.fields@.len() - i,
                {
                    let root = s.fields[i].get_named_type();
                    match root {
                        Some(id) => {
                            out.push(id.clone());
                        },
                        None => {},
                    }
                    proof {
                        let sub1 = s.fields@.subrange(0, i + 1);
                        assert(sub1.drop_last() =~= s.fields@.subrange(0, i as int));
                        assert(sub1.last() == s.fields@[i as int]);
                        assert(out@.map_values(|id: Id| id@) =~= roots_of_fields(sub1));
                    }
                    i += 1;
                }
                proof {
                    assert(s.fields@.subrange(0, s.fields@.len() as int) =~= s.fields@);
                }
                out
            },
            Item::Union(e) => {
                let mut out: Vec<Id> = Vec::new();
                let mut i: usize = 0;
                while i < e.variants.len()
                    invariant
                        0 <= i <= e.variants@.len(),
                        out@.map_values(|id: Id| id@) == roots_of_variants(
                            e.variants@.subrange(0, i as int),
                        ),
                    decreases e.variants@.len() - i,
                {
                    let root = e.variants[i].get_named_type();
                    match root {
                        Some(id) => {
                            out.push(id.clone());
                        },
                        None => {},
                    }
                    proof {
                        let sub1 = e.variants@.subrange(0, i + 1);
                        assert(sub1.drop_last() =~= e.variants@.subrange(0, i as int));
                        assert(sub1.last() == e.variants@[i as int]);
                        assert(out@.map_values(|id: Id| id@) =~= roots_of_variants(sub1));
                    }
                    i += 1;
                }
                proof {
                    assert(e.variants@.subrange(0, e.variants@.len() as int) =~= e.variants@);
                }
                out
            },
        }
    }
}

impl Render for Item {
    open spec fn spec_render(&self) -> Seq<char> {
        match self {
            Item::Record(s) => s.spec_render(),
            Item::Union(e) => e.spec_render(),
        }
    }

    fn render(&self) -> (r: String)
        ensures
            r@ == self.spec_render(),
    {
        match self {
            Item::Record(s) => s.render(),
            Item::Union(e) => e.render(),
        }
    }
}

/// The named roots of the given fields' types, in order, skipping fields
/// whose type has none.
pub open spec fn roots_of_fields(fs: Seq<crate::items::Field>) -> Seq<Seq<char>>
    decreases fs.len(),
{
    if fs.len() == 0 {
        Seq::empty()
    } else {
        roots_of_fields(fs.drop_last()) + (match spec_named_root(fs.last().typ) {
            Some(n) => seq![n],
            None => Seq::empty(),
        })
    }
}

/// The named roots of the given variants' payload types, in order,
/// skipping variants without one.
pub open spec fn roots_of_variants(vs: Seq<crate::items::Variant>) -> Seq<Seq<char>>
    decreases vs.len(),
{
    if vs.len() == 0 {
        Seq::empty()
    } else {
        roots_of_variants(vs.drop_last()) + (match spec_variant_named_root(vs.last()) {
            Some(n) => seq![n],
            None => Seq::empty(),
        })
    }
}

/// The named roots referenced by the members of `item`, in declaration
/// order.
pub open spec fn item_named_roots(item: Item) -> Seq<Seq<char>> {
    match item {
        Item::Record(s) => roots_of_fields(s.fields@),
        Item::Union(e) => roots_of_variants(e.variants@),
    }
}

/// The names of the given items, in order.
pub open spec fn item_names(s: Seq<Item>) -> Seq<Seq<char>> {
    s.map_values(|it: Item| it.spec_name())
}

/// The given items as a name-keyed map; on duplicated names the later
/// item wins, but a registry is only ever built from distinct names.
pub open spec fn items_map(s: Seq<Item>) -> Map<Seq<char>, Item>
    decreases s.len(),
{
    if s.len() == 0 {
        Map::empty()
    } else {
        items_map(s.drop_last()).insert(s.last().spec_name(), s.last())
    }
}

/// The domain of the map of any item list is finite.
pub proof fn lemma_items_map_finite(s: Seq<Item>)
    ensures
        items_map(s).dom().finite(),
    decreases s.len(),
{
    if s.len() > 0 {
        lemma_items_map_finite(s.drop_last());
    }
}

/// A key is in the map of `s` exactly when some item of `s` carries it as
/// its name.
pub proof fn lemma_items_map_dom(s: Seq<Item>, k: Seq<char>)
    ensures
        items_map(s).dom().contains(k) <==> exists|i: int|
            0 <= i < s.len() && s[i].spec_name() == k,
    decreases s.len(),
{
    if s.len() > 0 {
        lemma_items_map_dom(s.drop_last(), k);
        if s.last().spec_name() == k {
            assert(s[s.len() - 1].spec_name() == k);
        } else if exists|i: int| 0 <= i < s.len() && s[i].spec_name() == k {
            let i = choose|i: int| 0 <= i < s.len() && s[i].spec_name() == k;
            assert(s.drop_last()[i] == s[i] || i == s.len() - 1);
        } else {
            assert(forall|i: int|
                0 <= i < s.drop_last().len() ==> #[trigger] s.drop_last()[i].spec_name()
                    != k) by {
                assert(forall|i: int|
                    0 <= i < s.drop_last().len() ==> s.drop_last()[i] == #[trigger] s[i]);
            }
        }
    }
}

/// With distinct names, the map of `s` sends the name of each item of `s`
/// to that item.
pub proof fn lemma_items_map_index(s: Seq<Item>, i: int)
    requires
        0 <= i < s.len(),
        names_distinct(item_names(s)),
    ensures
        items_map(s).dom().contains(s[i].spec_name()),
        items_map(s)[s[i].spec_name()] == s[i],
    decreases s.len(),
{
    assert(item_names(s)[i] == s[i].spec_name());
    if i == s.len() - 1 {
    } else {
        assert(forall|j: int|
            0 <= j < s.drop_last().len() ==> s.drop_last()[j] == #[trigger] s[j]);
        assert(names_distinct(item_names(s.drop_last()))) by {
            let ns2 = item_names(s.drop_last());
            assert forall|a: int, b: int| 0 <= a < b < ns2.len() implies ns2[a] != ns2[b] by {
                assert(ns2[a] == s.drop_last()[a].spec_name());
                assert(ns2[b] == s.drop_last()[b].spec_name());
                assert(item_names(s)[a] == s[a].spec_name());
                assert(item_names(s)[b] == s[b].spec_name());
            }
        }
        lemma_items_map_index(s.drop_last(), i);
        assert(item_names(s)[i] != item_names(s)[s.len() - 1]);
        assert(s[i].spec_name() != s.last().spec_name());
    }
}

/// The items are strictly ascending by name.
pub open spec fn items_sorted_by_name(s: Seq<Item>) -> bool {
    forall|i: int, j: int|
        0 <= i < j < s.len() ==> lex_lt(#[trigger] s[i].spec_name(), #[trigger] s[j].spec_name())
}

/// Some position of `s` holds exactly `it`.
pub open spec fn seq_has_item(s: Seq<Item>, it: Item) -> bool {
    exists|i: int| 0 <= i < s.len() && s[i] == it
}

/// The index at or after `k` where an item named `name` belongs in `s`:
/// the first index whose item's name comes after `name`, or `s.len()`.
pub open spec fn item_insert_pos(s: Seq<Item>, name: Seq<char>, k: int) -> int
    recommends
        0 <= k <= s.len(),
    decreases s.len() - k,
{
    if k >= s.len() {
        k
    } else if lex_lt(name, s[k].spec_name()) {
        k
    } else {
        item_insert_pos(s, name, k + 1)
    }
}

proof fn lemma_item_pos_pinned(s: Seq<Item>, name: Seq<char>, k: int, p: int)
    requires
        0 <= k <= p <= s.len(),
        forall|j: int| k <= j < p ==> !lex_lt(name, s[j].spec_name()),
        p == s.len() || lex_lt(name, s[p].spec_name()),
    ensures
        item_insert_pos(s, name, k) == p,
    decreases p - k,
{
    if k < p {
        lemma_item_pos_pinned(s, name, k + 1, p);
    }
}

proof fn lemma_item_pos_bounds(s: Seq<Item>, name: Seq<char>, k: int)
    requires
        0 <= k <= s.len(),
    ensures
        k <= item_insert_pos(s, name, k) <= s.len(),
        forall|j: int| k <= j < item_insert_pos(s, name, k) ==> !lex_lt(name, s[j].spec_name()),
        item_insert_pos(s, name, k) < s.len() ==> lex_lt(
            name,
            s[item_insert_pos(s, name, k)].spec_name(),
        ),
    decreases s.len() - k,
{
    if k < s.len() && !lex_lt(name, s[k].spec_name()) {
        lemma_item_pos_bounds(s, name, k + 1);
    }
}

proof fn lemma_item_chain(s: Seq<Item>, i: int, j: int)
    requires
        forall|k: int|
            0 <= k < s.len() - 1 ==> lex_lt(#[trigger] s[k].spec_name(), s[k + 1].spec_name()),
        0 <= i < j < s.len(),
    ensures
        lex_lt(s[i].spec_name(), s[j].spec_name()),
    decreases j - i,
{
    if j > i + 1 {
        lemma_item_chain(s, i, j - 1);
        lemma_lex_transitive(s[i].spec_name(), s[j - 1].spec_name(), s[j].spec_name());
    }
}

proof fn lemma_insert_item_membership(s: Seq<Item>, item: Item, p: int)
    requires
        0 <= p <= s.len(),
    ensures
        forall|x: Item| seq_has_item(s.insert(p, item), x) <==> (seq_has_item(s, x) || x == item),
{
    let r = s.insert(p, item);
    s.insert_ensures(p, item);
    assert forall|x: Item| seq_has_item(r, x) <==> (seq_has_item(s, x) || x == item) by {
        if seq_has_item(r, x) {
            let i = choose|i: int| 0 <= i < r.len() && r[i] == x;
            if i < p {
                assert(s[i] == x);
            } else if i > p {
                assert(r[i] == s[i - 1]);
                assert(s[i - 1] == x);
            }
        }
        if seq_has_item(s, x) {
            let i = choose|i: int| 0 <= i < s.len() && s[i] == x;
            if i < p {
                assert(r[i] == x);
            } else {
                assert(r[i + 1] == s[i]);
                assert(r[i + 1] == x);
            }
        }
        if x == item {
            assert(r[p] == x);
        }
    }
}

proof fn lemma_insert_item_sorted(s: Seq<Item>, item: Item)
    requires
        items_sorted_by_name(s),
        forall|q: int| 0 <= q < s.len() ==> s[q].spec_name() != item.spec_name(),
    ensures
        items_sorted_by_name(s.insert(item_insert_pos(s, item.spec_name(), 0), item)),
{
    let p = item_insert_pos(s, item.spec_name(), 0);
    lemma_item_pos_bounds(s, item.spec_name(), 0);
    let r = s.insert(p, item);
    s.insert_ensures(p, item);
    assert forall|k: int|
        0 <= k < r.len() - 1 implies lex_lt(
        #[trigger] r[k].spec_name(),
        r[k + 1].spec_name(),
    ) by {
        if k + 1 < p {
            assert(r[k] == s[k] && r[k + 1] == s[k + 1]);
        } else if k + 1 == p {
            assert(r[k] == s[k] && r[k + 1] == item);
            assert(!lex_lt(item.spec_name(), s[k].spec_name()));
            assert(s[k].spec_name() != item.spec_name());
            lemma_lex_trichotomy(s[k].spec_name(), item.spec_name());
        } else if k == p {
            assert(r[k] == item && r[k + 1] == s[p]);
            assert(lex_lt(item.spec_name(), s[p].spec_name()));
        } else {
            assert(r[k] == s[k - 1] && r[k + 1] == s[k]);
        }
    }
    assert forall|i: int, j: int|
        0 <= i < j < r.len() implies lex_lt(
        #[trigger] r[i].spec_name(),
        #[trigger] r[j].spec_name(),
    ) by {
        lemma_item_chain(r, i, j);
    }
}

/// With strictly ascending names, no two items share a name.
pub proof fn lemma_sorted_names_distinct(s: Seq<Item>)
    requires
        items_sorted_by_name(s),
    ensures
        names_distinct(item_names(s)),
{
    assert forall|i: int, j: int|
        0 <= i < j < item_names(s).len() implies item_names(s)[i] != item_names(s)[j] by {
        assert(item_names(s)[i] == s[i].spec_name());
        assert(item_names(s)[j] == s[j].spec_name());
        assert(lex_lt(s[i].spec_name(), s[j].spec_name()));
        lemma_lex_irreflexive(s[i].spec_name());
    }
}

#[verifier::loop_isolation(false)]
fn insert_item(list: &mut Vec<Item>, item: Item)
    ensures
        final(list)@ == old(list)@.insert(
            item_insert_pos(old(list)@, item.spec_name(), 0),
            item,
        ),
        final(list)@.len() == old(list)@.len() + 1,
        forall|x: Item|
            seq_has_item(final(list)@, x) <==> (seq_has_item(old(list)@, x) || x == item),
        (items_sorted_by_name(old(list)@) && (forall|q: int|
            0 <= q < old(list)@.len() ==> old(list)@[q].spec_name() != item.spec_name()))
            ==> items_sorted_by_name(final(list)@),
{
    proof {
        lemma_item_pos_bounds(old(list)@, item.spec_name(), 0);
        lemma_insert_item_membership(
            old(list)@,
            item,
            item_insert_pos(old(list)@, item.spec_name(), 0),
        );
        if items_sorted_by_name(old(list)@) && (forall|q: int|
            0 <= q < old(list)@.len() ==> old(list)@[q].spec_name() != item.spec_name()) {
            lemma_insert_item_sorted(old(list)@, item);
        }
    }
    let name = item.name().as_str().to_owned();
    let mut p: usize = 0;
    while p < list.len()
        invariant
            list@ == old(list)@,
            name@ == item.spec_name(),
            0 <= p <= list@.len(),
            forall|j: int| 0 <= j < p ==> !lex_lt(item.spec_name(), list@[j].spec_name()),
        decreases list@.len() - p,
    {
        if str_lt(name.as_str(), list[p].name().as_str()) {
            proof {
                lemma_item_pos_pinned(list@, item.spec_name(), 0, p as int);
            }
            list.insert(p, item);
            proof {
                let ghost pos = item_insert_pos(old(list)@, item.spec_name(), 0);
                assert(list@ == old(list)@.insert(pos, item));
                assert forall|x: Item|
                    seq_has_item(list@, x) <==> (seq_has_item(old(list)@, x) || x == item) by {
                    assert(seq_has_item(old(list)@.insert(pos, item), x) <==> (seq_has_item(
                        old(list)@,
                        x,
                    ) || x == item));
                }
            }
            return ;
        }
        p += 1;
    }
    proof {
        lemma_item_pos_pinned(list@, item.spec_name(), 0, list@.len() as int);
    }
    let n = list.len();
    list.insert(n, item);
    proof {
        let ghost pos = item_insert_pos(old(list)@, item.spec_name(), 0);
        assert(list@ == old(list)@.insert(pos, item));
        assert forall|x: Item|
            seq_has_item(list@, x) <==> (seq_has_item(old(list)@, x) || x == item) by {
            assert(seq_has_item(old(list)@.insert(pos, item), x) <==> (seq_has_item(
                old(list)@,
                x,
            ) || x == item));
        }
    }
}

/// A name-keyed registry of items, held in ascending name order. Built
/// once; immutable afterwards. No two items share a name.
#[derive(Debug)]
pub struct ItemMap {
    items: Vec<Item>,
}

impl View for ItemMap {
    type V = Map<Seq<char>, Item>;

    closed spec fn view(&self) -> Map<Seq<char>, Item> {
        items_map(self.items@)
    }
}

impl ItemMap {
    /// The items of the registry, in ascending name order.
    pub closed spec fn spec_items(&self) -> Seq<Item> {
        self.items@
    }

    /// The registry's internal consistency: item names are distinct, and
    /// the map view agrees with the item list.
    pub open spec fn wf(&self) -> bool {
        &&& names_distinct(item_names(self.spec_items()))
        &&& self@ == items_map(self.spec_items())
    }

    /// The registry's domain is finite.
    pub proof fn lemma_dom_finite(&self)
        ensures
            self@.dom().finite(),
    {
        lemma_items_map_finite(self.items@);
    }

    /// Build a registry from the given items, keyed by name and held in
    /// ascending name order. Fails on the first name that occurs twice,
    /// reporting that name.
    pub fn build(items: Vec<Item>) -> (r: Result<ItemMap, Error>)
        ensures
            match r {
                Ok(m) => {
                    &&& names_distinct(item_names(items@))
                    &&& m.wf()
                    &&& items_sorted_by_name(m.spec_items())
                    &&& m.spec_items().len() == items@.len()
                    &&& forall|i: int|
                        0 <= i < items@.len() ==> seq_has_item(m.spec_items(), #[trigger] items@[i])
                    &&& forall|p: int|
                        0 <= p < m.spec_items().len() ==> seq_has_item(
                            items@,
                            #[trigger] m.spec_items()[p],
                        )
                    &&& forall|i: int|
                        0 <= i < items@.len() ==> m@.dom().contains(
                            #[trigger] items@[i].spec_name(),
                        ) && m@[items@[i].spec_name()] == items@[i]
                    &&& forall|k: Seq<char>|
                        m@.dom().contains(k) ==> exists|i: int|
                            0 <= i < items@.len() && #[trigger] items@[i].spec_name() == k
                },
                Err(e) => !names_distinct(item_names(items@)) && (exists|j: int|
                    is_first_dup(item_names(items@), j) && (e matches Error::DuplicateName(n)
                        && n@ == item_names(items@)[j])),
            },
    {
        let ghost ns = item_names(items@);
        let mut j: usize = 0;
        while j < items.len()
            invariant
                0 <= j <= items@.len(),
                ns == item_names(items@),
                forall|i2: int, j2: int| 0 <= i2 < j2 < j ==> ns[i2] != ns[j2],
            decreases items@.len() - j,
        {
            let mut i: usize = 0;
            while i < j
                invariant
                    0 <= i <= j < items@.len(),
                    ns == item_names(items@),
                    forall|i2: int, j2: int| 0 <= i2 < j2 < j ==> ns[i2] != ns[j2],
                    forall|i2: int| 0 <= i2 < i ==> ns[i2] != ns[j as int],
                decreases j - i,
            {
                let a = items[i].name();
                let b = items[j].name();
                if *a == *b {
                    proof {
                        assert(ns[i as int] == items@[i as int].spec_name());
                        assert(ns[j as int] == items@[j as int].spec_name());
                        assert(is_first_dup(ns, j as int));
                        assert(!names_distinct(ns));
                    }
                    return Err(Error::DuplicateName(items[j].name().clone()));
                }
                proof {
                    assert(ns[i as int] == items@[i as int].spec_name());
                    assert(ns[j as int] == items@[j as int].spec_name());
                }
                i += 1;
            }
            j += 1;
        }
        let ghost gitems = items@;
        let mut remaining = items;
        let mut stored: Vec<Item> = Vec::new();
        while remaining.len() > 0
            invariant
                names_distinct(item_names(gitems)),
                remaining@ =~= gitems.subrange(
                    gitems.len() - remaining@.len(),
                    gitems.len() as int,
                ),
                stored@.len() + remaining@.len() == gitems.len(),
                items_sorted_by_name(stored@),
                forall|j2: int|
                    0 <= j2 < gitems.len() - remaining@.len() ==> seq_has_item(
                        stored@,
                        #[trigger] gitems[j2],
                    ),
                forall|p: int|
                    0 <= p < stored@.len() ==> exists|j2: int|
                        0 <= j2 < gitems.len() - remaining@.len() && #[trigger] stored@[p]
                            == gitems[j2],
            decreases remaining@.len(),
        {
            let ghost done = gitems.len() - remaining@.len();
            let ghost pre_stored = stored@;
            let item = remaining.remove(0);
            proof {
                assert(item == gitems[done as int]);
                assert(remaining@ =~= gitems.subrange(done + 1, gitems.len() as int));
                assert forall|q: int|
                    0 <= q < pre_stored.len() implies pre_stored[q].spec_name()
                    != item.spec_name() by {
                    let j2 = choose|j2: int| 0 <= j2 < done && pre_stored[q] == gitems[j2];
                    assert(item_names(gitems)[j2] == gitems[j2].spec_name());
                    assert(item_names(gitems)[done as int] == gitems[done as int].spec_name());
                }
            }
            insert_item(&mut stored, item);
            proof {
                assert forall|j2: int|
                    0 <= j2 < gitems.len() - remaining@.len() implies seq_has_item(
                    stored@,
                    #[trigger] gitems[j2],
                ) by {
                    if j2 < done {
                        assert(seq_has_item(pre_stored, gitems[j2]));
                    } else {
                        assert(gitems[j2] == item);
                    }
                }
                assert forall|p: int|
                    0 <= p < stored@.len() implies exists|j2: int|
                    0 <= j2 < gitems.len() - remaining@.len() && #[trigger] stored@[p]
                        == gitems[j2] by {
                    let x = stored@[p];
                    assert(seq_has_item(stored@, x));
                    if seq_has_item(pre_stored, x) {
                        let q = choose|q: int| 0 <= q < pre_stored.len() && pre_stored[q] == x;
                        let j2 = choose|j2: int| 0 <= j2 < done && pre_stored[q] == gitems[j2];
                        assert(0 <= j2 < gitems.len() - remaining@.len() && stored@[p]
                            == gitems[j2]);
                    } else {
                        assert(x == item);
                        assert(stored@[p] == gitems[done as int]);
                    }
                }
            }
        }
        proof {
            lemma_sorted_names_distinct(stored@);
            assert forall|i: int|
                0 <= i < gitems.len() implies items_map(stored@).dom().contains(
                #[trigger] gitems[i].spec_name(),
            ) && items_map(stored@)[gitems[i].spec_name()] == gitems[i] by {
                assert(seq_has_item(stored@, gitems[i]));
                let p = choose|p: int| 0 <= p < stored@.len() && stored@[p] == gitems[i];
                lemma_items_map_index(stored@, p);
            }
            assert forall|k: Seq<char>| items_map(stored@).dom().contains(k) implies exists|i: int|
                0 <= i < gitems.len() && #[trigger] gitems[i].spec_name() == k by {
                lemma_items_map_dom(stored@, k);
                let p = choose|p: int| 0 <= p < stored@.len() && stored@[p].spec_name() == k;
                let j2 = choose|j2: int| 0 <= j2 < gitems.len() && stored@[p] == gitems[j2];
                assert(gitems[j2].spec_name() == k);
            }
        }
        Ok(ItemMap { items: stored })
    }

    /// Look the given name up in the registry. Absence is a legitimate
    /// outcome, not an error: queries treat a dangling reference as
    /// vacuously false.
    pub fn get(&self, id: &Id) -> (r: Option<&Item>)
        requires
            self.wf(),
        ensures
            match r {
                Some(item) => self@.dom().contains(id@) && *item == self@[id@],
                None => !self@.dom().contains(id@),
            },
    {
        let mut i: usize = 0;
        while i < self.items.len()
            invariant
                0 <= i <= self.items@.len(),
                self.wf(),
                forall|j: int| 0 <= j < i ==> #[trigger] self.items@[j].spec_name() != id@,
            decreases self.items@.len() - i,
        {
            let name = self.items[i].name();
            if *name == *id {
                proof {
                    lemma_items_map_index(self.items@, i as int);
                }
                return Some(&self.items[i]);
            }
            i += 1;
        }
        proof {
            lemma_items_map_dom(self.items@, id@);
        }
        None
    }

    /// Every named root referenced by every item, each item's references
    /// followed by the item's own name, taking the items in ascending
    /// name order.
    pub fn find_named_types(&self) -> (r: Vec<Id>)
        ensures
            r@.map_values(|id: Id| id@) == all_named_types(self.spec_items()),
    {
        let mut out: Vec<Id> = Vec::new();
        let mut i: usize = 0;
        while i < self.items.len()
            invariant
                0 <= i <= self.items@.len(),
                out@.map_values(|id: Id| id@) == all_named_types(
                    self.items@.subrange(0, i as int),
                ),
            decreases self.items@.len() - i,
        {
            let mut refs = self.items[i].get_named_types();
            let ghost refs_view = refs@;
            let mut k: usize = 0;
            while k < refs.len()
                invariant
                    0 <= k <= refs@.len(),
                    refs@ == refs_view,
                    0 <= i < self.items@.len(),
                    out@.map_values(|id: Id| id@) == all_named_types(
                        self.items@.subrange(0, i as int),
                    ) + refs_view.map_values(|id: Id| id@).subrange(0, k as int),
                decreases refs@.len() - k,
            {
                let ghost pre_out = out@;
                out.push(refs[k].clone());
                proof {
                    let rs = refs_view.map_values(|id: Id| id@);
                    assert(out@ == pre_out.push(refs_view[k as int]));
                    assert(out@.map_values(|id: Id| id@) =~= pre_out.map_values(
                        |id: Id| id@,
                    ).push(rs[k as int]));
                    assert(rs.subrange(0, k + 1) =~= rs.subrange(0, k as int).push(rs[k as int]));
                    assert(out@.map_values(|id: Id| id@) =~= all_named_types(
                        self.items@.subrange(0, i as int),
                    ) + rs.subrange(0, k + 1));
                }
                k += 1;
            }
            out.push(self.items[i].name().clone());
            proof {
                let rs = refs_view.map_values(|id: Id| id@);
                assert(rs.subrange(0, rs.len() as int) =~= rs);
                let sub1 = self.items@.subrange(0, i + 1);
                assert(sub1.drop_last() =~= self.items@.subrange(0, i as int));
                assert(sub1.last() == self.items@[i as int]);
                assert(rs == item_named_roots(self.items@[i as int]));
                assert(out@.map_values(|id: Id| id@) =~= all_named_types(sub1));
            }
            i += 1;
        }
        proof {
            assert(self.items@.subrange(0, self.items@.len() as int) =~= self.items@);
        }
        out
    }
}

/// Every named root referenced by every item of `s`, each item's
/// references followed by the item's own name, in order.
pub open spec fn all_named_types(s: Seq<Item>) -> Seq<Seq<char>>
    decreases s.len(),
{
    if s.len() == 0 {
        Seq::empty()
    } else {
        all_named_types(s.drop_last()) + item_named_roots(s.last()) + seq![s.last().spec_name()]
    }
}

} // verus!
