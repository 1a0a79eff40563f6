//! Categories and the registry that gives each category name an identifier.

use std::collections::HashMap;
use vstd::prelude::*;
use vstd::std_specs::iter::IteratorSpec;

use crate::ident::random_uuid;

verus! {

/// Identifies a category for as long as the budget lives.
pub type CategoryId = u128;

/// What a category record says.
pub struct CategoryView {
    pub name: Seq<char>,
    /// The place of the category when categories are listed.
    pub sort: i32,
    pub hidden: bool,
}

impl CategoryView {
    /// The record of a category on the day it is first named.
    pub open spec fn fresh(name: Seq<char>) -> CategoryView {
        CategoryView { name, sort: 0, hidden: false }
    }
}

/// A named envelope.
#[derive(Debug, Clone)]
pub struct Category {
    name: String,
    sort: i32,
    hidden: bool,
}

impl View for Category {
    type V = CategoryView;

    closed spec fn view(&self) -> CategoryView {
        CategoryView { name: self.name@, sort: self.sort, hidden: self.hidden }
    }
}

impl Category {
    /// A visible category of the given name, sorted first.
    pub fn new(name: &str) -> (c: Category)
        ensures
            c@ == CategoryView::fresh(name@),
    {
        Category { name: name.to_owned(), sort: 0, hidden: false }
    }

    pub fn name(&self) -> (name: &String)
        ensures
            name@ == self@.name,
    {
        &self.name
    }

    pub fn sort(&self) -> (sort: i32)
        ensures
            sort == self@.sort,
    {
        self.sort
    }

    pub fn hidden(&self) -> (hidden: bool)
        ensures
            hidden == self@.hidden,
    {
        self.hidden
    }

    /// A copy of this record.
    pub fn duplicate(&self) -> (c: Category)
        ensures
            c@ == self@,
    {
        Category { name: self.name.clone(), sort: self.sort, hidden: self.hidden }
    }

    /// A copy of this record under another name.
    pub fn renamed(&self, name: &str) -> (c: Category)
        ensures
            c@ == (CategoryView { name: name@, ..self@ }),
    {
        Category { name: name.to_owned(), sort: self.sort, hidden: self.hidden }
    }
}

/// What a master category record says.
pub struct MasterCategoryView {
    pub name: Seq<char>,
    pub sort: i32,
}

/// A group of categories, for display.
#[derive(Debug, Clone)]
pub struct MasterCategory {
    name: String,
    sort: i32,
}

impl View for MasterCategory {
    type V = MasterCategoryView;

    closed spec fn view(&self) -> MasterCategoryView {
        MasterCategoryView { name: self.name@, sort: self.sort }
    }
}

impl MasterCategory {
    pub fn name(&self) -> (name: &String)
        ensures
            name@ == self@.name,
    {
        &self.name
    }

    pub fn sort(&self) -> (sort: i32)
        ensures
            sort == self@.sort,
    {
        self.sort
    }

    /// A copy of this record.
    pub fn duplicate(&self) -> (c: MasterCategory)
        ensures
            c@ == self@,
    {
        MasterCategory { name: self.name.clone(), sort: self.sort }
    }
}

/// Whether some category of the registry carries the name.
pub open spec fn has_name(reg: Map<CategoryId, CategoryView>, name: Seq<char>) -> bool {
    exists|id: CategoryId| reg.contains_key(id) && (#[trigger] reg[id]).name == name
}

/// Whether no two categories of the registry carry the same name.
pub open spec fn names_unique(reg: Map<CategoryId, CategoryView>) -> bool {
    forall|a: CategoryId, b: CategoryId|
        reg.contains_key(a) && reg.contains_key(b) && (#[trigger] reg[a]).name == (
        #[trigger] reg[b]).name ==> a == b
}

/// What resolving a name does to a registry. A name that some category
/// carries resolves to the identifier of one such category and changes
/// nothing. Any other name resolves to an identifier that was not in use,
/// under which a fresh category of that name is entered.
pub open spec fn resolves(
    before: Map<CategoryId, CategoryView>,
    name: Seq<char>,
    id: CategoryId,
    after: Map<CategoryId, CategoryView>,
) -> bool {
    if has_name(before, name) {
        &&& after == before
        &&& before.contains_key(id)
        &&& before[id].name == name
    } else {
        &&& !before.contains_key(id)
        &&& after == before.insert(id, CategoryView::fresh(name))
    }
}

/// What renaming does to a registry: one category that carries the old
/// name carries the new name afterwards, and nothing else changes. Without
/// a category of the old name nothing changes at all.
pub open spec fn renamed(
    before: Map<CategoryId, CategoryView>,
    old_name: Seq<char>,
    new_name: Seq<char>,
    after: Map<CategoryId, CategoryView>,
) -> bool {
    if has_name(before, old_name) {
        exists|id: CategoryId|
            {
                &&& before.contains_key(id)
                &&& (#[trigger] before[id]).name == old_name
                &&& after == before.insert(id, CategoryView { name: new_name, ..before[id] })
            }
    } else {
        after == before
    }
}

/// Whether a list holds the records of a registry, each of them once, in
/// whatever order.
pub open spec fn lists_all<R>(reg: Map<CategoryId, R>, records: Seq<R>) -> bool {
    exists|ids: Seq<CategoryId>|
        {
            &&& ids.no_duplicates()
            &&& ids.to_set() == reg.dom()
            &&& #[trigger] ids.len() == records.len()
            &&& forall|i: int| 0 <= i < ids.len() ==> records[i] == reg[ids[i]]
        }
}

/// Resolving a name leaves it on the category it resolved to and takes
/// nothing away: every category that was there is still there, unchanged.
pub proof fn lemma_resolves_extends(
    before: Map<CategoryId, CategoryView>,
    name: Seq<char>,
    id: CategoryId,
    after: Map<CategoryId, CategoryView>,
)
    requires
        resolves(before, name, id, after),
    ensures
        after.contains_key(id),
        after[id].name == name,
        forall|k: CategoryId| before.contains_key(k) ==> after.contains_key(k) && after[k] == before[k],
        names_unique(before) ==> names_unique(after),
        before.dom().finite() ==> after.dom().finite(),
{
    if names_unique(before) && !has_name(before, name) {
        assert forall|a: CategoryId, b: CategoryId|
            after.contains_key(a) && after.contains_key(b) && (#[trigger] after[a]).name == (
            #[trigger] after[b]).name implies a == b by {
            if a != b {
                if a == id {
                    assert(before.contains_key(b) && before[b].name == name);
                } else if b == id {
                    assert(before.contains_key(a) && before[a].name == name);
                } else {
                    assert(before[a].name == before[b].name);
                }
            }
        }
    }
}

/// Renaming keeps the identifiers: the same categories are registered
/// before and after.
pub proof fn lemma_renamed_keeps_ids(
    before: Map<CategoryId, CategoryView>,
    old_name: Seq<char>,
    new_name: Seq<char>,
    after: Map<CategoryId, CategoryView>,
)
    requires
        renamed(before, old_name, new_name, after),
    ensures
        after.dom() == before.dom(),
{
    assert(after.dom() =~= before.dom());
}

/// Resolving the same name twice gives the same identifier, and the
/// second time changes nothing, as long as the registry did not hold two
/// categories of that name to begin with.
pub proof fn lemma_resolve_twice(
    m0: Map<CategoryId, CategoryView>,
    name: Seq<char>,
    id1: CategoryId,
    m1: Map<CategoryId, CategoryView>,
    id2: CategoryId,
    m2: Map<CategoryId, CategoryView>,
)
    requires
        resolves(m0, name, id1, m1),
        resolves(m1, name, id2, m2),
        forall|a: CategoryId, b: CategoryId|
            m0.contains_key(a) && m0.contains_key(b) && (#[trigger] m0[a]).name == name && (
            #[trigger] m0[b]).name == name ==> a == b,
    ensures
        id1 == id2,
        m2 == m1,
{
    lemma_resolves_extends(m0, name, id1, m1);
    assert(has_name(m1, name));
    if !has_name(m0, name) {
        if id2 != id1 {
            assert(m0.contains_key(id2) && m0[id2].name == name);
        }
    }
}

/// Two different names that no category carries resolve to two different
/// identifiers.
pub proof fn lemma_resolve_distinct(
    m0: Map<CategoryId, CategoryView>,
    name1: Seq<char>,
    id1: CategoryId,
    m1: Map<CategoryId, CategoryView>,
    name2: Seq<char>,
    id2: CategoryId,
    m2: Map<CategoryId, CategoryView>,
)
    requires
        resolves(m0, name1, id1, m1),
        resolves(m1, name2, id2, m2),
        name1 != name2,
        !has_name(m0, name1),
        !has_name(m0, name2),
    ensures
        id1 != id2,
{
    if has_name(m1, name2) {
        let k = choose|k: CategoryId| m1.contains_key(k) && (#[trigger] m1[k]).name == name2;
        assert(m0.contains_key(k) && m0[k].name == name2);
    }
}

/// The identifier tried in the `k`-th place when looking for one that is
/// not in use: the candidate itself first, then its successors, going
/// round from the largest identifier to zero.
pub open spec fn probe(candidate: CategoryId, k: nat) -> CategoryId {
    ((candidate + k) % id_space()) as u128
}

/// The number of identifiers there are.
pub open spec fn id_space() -> int {
    u128::MAX + 1
}

/// Whether `id` is the first identifier from the candidate on that is not
/// in use.
pub open spec fn first_unused(used: Set<CategoryId>, candidate: CategoryId, id: CategoryId) -> bool {
    exists|k: nat|
        {
            &&& id == #[trigger] probe(candidate, k)
            &&& !used.contains(id)
            &&& forall|j: nat| j < k ==> used.contains(#[trigger] probe(candidate, j))
        }
}

/// The search starts at the candidate and moves on by one identifier at a
/// time, from the largest identifier to zero.
pub proof fn lemma_probe_steps(candidate: CategoryId, k: nat)
    ensures
        probe(candidate, 0) == candidate,
        probe(candidate, k + 1) == if probe(candidate, k) == u128::MAX {
            0
        } else {
            probe(candidate, k) + 1
        },
{
    let m = id_space();
    vstd::arithmetic::div_mod::lemma_small_mod(candidate as nat, m as nat);
    let x = candidate + k;
    vstd::arithmetic::div_mod::lemma_add_mod_noop(x, 1, m);
    vstd::arithmetic::div_mod::lemma_small_mod(1, m as nat);
    let r = x % m;
    assert(0 <= r < m);
    if r == u128::MAX {
        vstd::arithmetic::div_mod::lemma_mod_self_0(m);
    } else {
        vstd::arithmetic::div_mod::lemma_small_mod((r + 1) as nat, m as nat);
    }
}

/// If the first `n` identifiers from a candidate on are all in use, at
/// least `n` identifiers are in use.
pub proof fn lemma_probes_fit(used: Set<CategoryId>, candidate: CategoryId, n: nat)
    requires
        used.finite(),
        n <= id_space(),
        forall|j: nat| j < n ==> used.contains(#[trigger] probe(candidate, j)),
    ensures
        n <= used.len(),
    decreases n,
{
    if n > 0 {
        let last = probe(candidate, (n - 1) as nat);
        let rest = used.remove(last);
        assert forall|j: nat| j < n - 1 implies rest.contains(#[trigger] probe(candidate, j)) by {
            assert(used.contains(probe(candidate, j)));
            assert(probe(candidate, j) != last) by {
                let m = id_space();
                let a = candidate + j;
                let b = candidate + (n - 1);
                if a % m == b % m {
                    assert(a == m * (a / m) + a % m) by {
                        vstd::arithmetic::div_mod::lemma_fundamental_div_mod(a, m);
                    }
                    assert(b == m * (b / m) + b % m) by {
                        vstd::arithmetic::div_mod::lemma_fundamental_div_mod(b, m);
                    }
                    assert(b - a == m * (b / m - a / m)) by (nonlinear_arith)
                        requires
                            a == m * (a / m) + a % m,
                            b == m * (b / m) + b % m,
                            a % m == b % m,
                    ;
                    let q = b / m - a / m;
                    assert(0 < m * q < m);
                    assert(false) by (nonlinear_arith)
                        requires
                            0 < m * q < m,
                            m > 0,
                    ;
                }
            }
        }
        lemma_probes_fit(rest, candidate, (n - 1) as nat);
    }
}

/// The registry of categories, by identifier.
#[derive(Debug, Clone)]
pub struct Categories {
    categories: HashMap<CategoryId, Category>,
}

impl View for Categories {
    type V = Map<CategoryId, CategoryView>;

    closed spec fn view(&self) -> Map<CategoryId, CategoryView> {
        self.categories@.map_values(|c: Category| c@)
    }
}

impl Categories {
    /// An empty registry.
    pub fn new() -> (reg: Categories)
        ensures
            reg@ == Map::<CategoryId, CategoryView>::empty(),
    {
        let reg = Categories { categories: HashMap::new() };
        assert(reg@ =~= Map::empty());
        reg
    }

    /// The number of categories.
    pub fn len(&self) -> (n: usize)
        ensures
            n == self@.len(),
            self@.dom().finite(),
    {
        assert(self@.dom() =~= self.categories@.dom());
        self.categories.len()
    }

    /// The identifier of a category that carries the name, if there is
    /// one. Where several categories carry it, any of them may be found.
    pub fn get_id(&self, name: &str) -> (r: Option<CategoryId>)
        ensures
            r is Some == has_name(self@, name@),
            r matches Some(id) ==> self@.contains_key(id) && self@[id].name == name@,
    {
        for id in it: self.categories.keys()
            invariant
                forall|k: int| 0 <= k < it.index() ==> self@[*it.seq()[k]].name != name@,
        {
            let c = self.categories.get(id).unwrap();
            if *c.name.as_str() == *name {
                assert(self@.contains_key(*id) && self@[*id].name == name@);
                return Some(*id);
            }
        }
        None
    }

    /// The record of a category.
    pub fn get(&self, id: CategoryId) -> (r: Option<&Category>)
        ensures
            r is Some == self@.contains_key(id),
            r matches Some(c) ==> c@ == self@[id],
    {
        self.categories.get(&id)
    }

    /// The first identifier from the candidate on that is not in use.
    pub fn unused_from(&self, candidate: CategoryId) -> (id: CategoryId)
        ensures
            first_unused(self@.dom(), candidate, id),
    {
        let mut id: CategoryId = candidate;
        let mut k: usize = 0;
        assert(self@.dom() =~= self.categories@.dom());
        proof {
            lemma_probe_steps(candidate, 0);
        }
        while self.categories.contains_key(&id)
            invariant
                id == probe(candidate, k as nat),
                k <= self.categories@.len(),
                self@.dom() == self.categories@.dom(),
                forall|j: nat| j < k ==> self@.dom().contains(#[trigger] probe(candidate, j)),
            decreases self.categories@.len() - k,
        {
            proof {
                assert forall|j: nat| j < k + 1 implies self@.dom().contains(
                    #[trigger] probe(candidate, j),
                ) by {
                    if j == k {
                    }
                }
                lemma_probes_fit(self@.dom(), candidate, (k + 1) as nat);
                lemma_probe_steps(candidate, k as nat);
            }
            let in_use = self.categories.len();
            assert(k < in_use);
            id = if id == u128::MAX {
                0
            } else {
                id + 1
            };
            k += 1;
        }
        id
    }

    /// Resolves a name with a given candidate for a new identifier: the
    /// identifier of a category that carries the name, or else the first
    /// identifier from the candidate on that is not in use, under which a
    /// fresh category of that name is entered.
    pub fn get_or_create_id_from(&mut self, name: &str, candidate: CategoryId) -> (id: CategoryId)
        ensures
            resolves(old(self)@, name@, id, final(self)@),
            !has_name(old(self)@, name@) ==> first_unused(old(self)@.dom(), candidate, id),
    {
        match self.get_id(name) {
            Some(id) => id,
            None => {
                let id = self.unused_from(candidate);
                self.categories.insert(id, Category::new(name));
                assert(self@ =~= old(self)@.insert(id, CategoryView::fresh(name@)));
                id
            },
        }
    }

    /// Resolves a name: the identifier of a category that carries the
    /// name, or else a new identifier, drawn at random, under which a
    /// fresh category of that name is entered.
    pub fn get_or_create_id(&mut self, name: &str) -> (id: CategoryId)
        ensures
            resolves(old(self)@, name@, id, final(self)@),
    {
        match self.get_id(name) {
            Some(id) => id,
            None => self.get_or_create_id_from(name, random_uuid()),
        }
    }

    /// The records of all categories, in no particular order.
    pub fn values(&self) -> (all: Vec<Category>)
        ensures
            lists_all(self@, Seq::new(all@.len(), |i: int| all@[i]@)),
    {
        let mut all: Vec<Category> = Vec::new();
        let ghost mut ids: Seq<CategoryId> = Seq::empty();
        for id in it: self.categories.keys()
            invariant
                all@.len() == it.index(),
                ids.len() == it.index(),
                it.seq() == self.categories.keys().remaining(),
                forall|k: int| 0 <= k < it.index() ==> ids[k] == *it.seq()[k],
                forall|k: int| 0 <= k < it.index() ==> self@.contains_key(#[trigger] ids[k]),
                forall|k: int| 0 <= k < it.index() ==> (#[trigger] all@[k])@ == self@[ids[k]],
        {
            let c = self.categories.get(id).unwrap();
            all.push(c.duplicate());
            proof {
                assert(self@.contains_key(*id) && c@ == self@[*id]);
                ids = ids.push(*id);
            }
        }
        proof {
            let records = Seq::new(all@.len(), |i: int| all@[i]@);
            assert(ids.len() == records.len());
            let keys = self.categories.keys().remaining();
            assert(ids =~= keys.unref());
            assert(ids.no_duplicates());
            assert(self@.dom() =~= self.categories@.dom());
        }
        all
    }

    /// Gives one category that carries the old name the new name.
    pub fn rename(&mut self, old_name: &str, new_name: &str)
        ensures
            renamed(old(self)@, old_name@, new_name@, final(self)@),
    {
        match self.get_id(old_name) {
            Some(id) => {
                let changed = self.categories.get(&id).unwrap().renamed(new_name);
                self.categories.insert(id, changed);
                assert(self@ =~= old(self)@.insert(
                    id,
                    CategoryView { name: new_name@, ..old(self)@[id] },
                ));
            },
            None => {},
        }
    }
}

} // verus!
