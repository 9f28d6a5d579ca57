//! Selection lists: identifiers in display order with a cursor that stays on
//! the same entity when the list is rebuilt.

use vstd::prelude::*;

use crate::model::{FromId, Identifier, Project, ProjectId, TaskId};
use crate::order::{lemma_bytes_le_total, lemma_bytes_le_transitive, name_le, name_precedes};
use crate::repository::{Repository, RepositoryView};

verus! {

/// One line offered to a list: an identifier and the key it is sorted by.
#[derive(Debug)]
pub struct Entry<Id> {
    pub id: Id,
    pub key: String,
}

/// A list of identifiers with a cursor.
#[derive(Debug)]
pub struct ExplorerGroup<T> {
    pub items: Vec<T>,
    pub selected: usize,
}

/// What a list is, as a mathematical value.
pub struct ListView<T> {
    pub items: Seq<T>,
    pub selected: int,
}

impl<T> View for ExplorerGroup<T> {
    type V = ListView<T>;

    open spec fn view(&self) -> ListView<T> {
        ListView { items: self.items@, selected: self.selected as int }
    }
}

impl<T> ListView<T> {
    /// The cursor is on a line of the list, or at 0 when there is none.
    pub open spec fn wf(self) -> bool {
        0 <= self.selected && (self.selected < self.items.len() || self.selected == 0)
    }

    /// The identifier under the cursor.
    pub open spec fn selected_id(self) -> Option<T> {
        if 0 <= self.selected < self.items.len() {
            Some(self.items[self.selected])
        } else {
            None
        }
    }

    /// The list after the cursor moved one line up.
    pub open spec fn previous(self) -> ListView<T> {
        if self.selected > 0 {
            ListView { items: self.items, selected: self.selected - 1 }
        } else {
            self
        }
    }

    /// The list after the cursor moved one line down.
    pub open spec fn next(self) -> ListView<T> {
        if self.selected + 1 < self.items.len() {
            ListView { items: self.items, selected: self.selected + 1 }
        } else {
            self
        }
    }
}

/// `order` names every position of `keys` once, by ascending key, and
/// positions whose keys are equal in ascending order.
pub open spec fn is_stable_order(keys: Seq<Seq<char>>, order: Seq<int>) -> bool {
    &&& order.len() == keys.len()
    &&& order.no_duplicates()
    &&& forall|i: int| 0 <= i < order.len() ==> 0 <= #[trigger] order[i] < keys.len()
    &&& forall|k: int| 0 <= k < keys.len() ==> #[trigger] order.contains(k)
    &&& forall|i: int, j: int|
        0 <= i < j < order.len() ==> name_le(
            #[trigger] keys[order[i]],
            #[trigger] keys[order[j]],
        )
    &&& forall|i: int, j: int|
        0 <= i < j < order.len() && name_le(#[trigger] keys[order[j]], #[trigger] keys[order[i]])
            ==> order[i] < order[j]
}

/// `ids` holds the identifiers of `entries`, arranged by `order`.
pub open spec fn arranged<Id>(entries: Seq<Entry<Id>>, order: Seq<int>, ids: Seq<Id>) -> bool {
    &&& ids.len() == order.len()
    &&& forall|i: int| 0 <= i < ids.len() ==> #[trigger] ids[i] == entries[order[i]].id
}

/// The keys of `entries`, in their order.
pub open spec fn keys_of<Id>(entries: Seq<Entry<Id>>) -> Seq<Seq<char>> {
    Seq::new(entries.len(), |i: int| entries[i].key@)
}

/// `ids` holds the identifiers of `entries` sorted by key, entries with equal
/// keys in the order in which they were given.
pub open spec fn is_listing_of<Id>(ids: Seq<Id>, entries: Seq<Entry<Id>>) -> bool {
    exists|order: Seq<int>| is_stable_order(keys_of(entries), order) && arranged(entries, order, ids)
}

/// Where the cursor stands on `ids` when it stood on `before`: on the first
/// line that holds the same identifier, or on the first line of all.
pub open spec fn is_cursor_for<Id>(selected: int, before: Option<Id>, ids: Seq<Id>) -> bool {
    match before {
        Some(id) if ids.contains(id) => {
            &&& 0 <= selected < ids.len()
            &&& ids[selected] == id
            &&& forall|k: int| 0 <= k < selected ==> ids[k] != id
        },
        _ => selected == 0,
    }
}

/// `after` is `before` rebuilt from `entries`: the identifiers sorted by key,
/// the cursor on the identifier it was on.
pub open spec fn is_synced<Id>(
    before: ListView<Id>,
    entries: Seq<Entry<Id>>,
    after: ListView<Id>,
) -> bool {
    &&& is_listing_of(after.items, entries)
    &&& is_cursor_for(after.selected, before.selected_id(), after.items)
}

/// `entries` offers each identifier of `members` once and no other.
pub open spec fn offers<Id>(entries: Seq<Entry<Id>>, members: Set<Id>) -> bool {
    &&& forall|k: int| 0 <= k < entries.len() ==> members.contains(#[trigger] entries[k].id)
    &&& forall|id: Id|
        members.contains(id) ==> exists|k: int| 0 <= k < entries.len() && #[trigger] entries[k].id == id
    &&& forall|a: int, b: int|
        0 <= a < b < entries.len() ==> #[trigger] entries[a].id != #[trigger] entries[b].id
}

/// `ids` holds each identifier of `members` once and no other, by ascending
/// name.
pub open spec fn lists_by_name<Id>(ids: Seq<Id>, members: Set<Id>, names: Map<Id, Seq<char>>) -> bool {
    &&& ids.no_duplicates()
    &&& forall|id: Id| ids.contains(id) <==> members.contains(id)
    &&& forall|i: int, j: int|
        0 <= i < j < ids.len() ==> name_le(names[#[trigger] ids[i]], names[#[trigger] ids[j]])
}

/// A listing of entries that offer each member once under its name lists
/// the members by name.
pub proof fn lemma_listing_by_name<Id>(
    ids: Seq<Id>,
    entries: Seq<Entry<Id>>,
    members: Set<Id>,
    names: Map<Id, Seq<char>>,
)
    requires
        is_listing_of(ids, entries),
        offers(entries, members),
        forall|k: int| 0 <= k < entries.len() ==> (#[trigger] entries[k]).key@ == names[entries[k].id],
    ensures
        lists_by_name(ids, members, names),
{
    let keys = keys_of(entries);
    let order = choose|order: Seq<int>|
        is_stable_order(keys_of(entries), order) && arranged(entries, order, ids);
    assert forall|i: int, j: int| 0 <= i < ids.len() && 0 <= j < ids.len() && i != j implies ids[i]
        != ids[j] by {
        assert(order[i] != order[j]);
        if order[i] < order[j] {
            assert(entries[order[i]].id != entries[order[j]].id);
        } else {
            assert(entries[order[j]].id != entries[order[i]].id);
        }
    }
    assert forall|id: Id| ids.contains(id) <==> members.contains(id) by {
        if ids.contains(id) {
            let i = choose|i: int| 0 <= i < ids.len() && ids[i] == id;
            assert(members.contains(entries[order[i]].id));
        }
        if members.contains(id) {
            let k = choose|k: int| 0 <= k < entries.len() && entries[k].id == id;
            assert(order.contains(k));
            let i = choose|i: int| 0 <= i < order.len() && order[i] == k;
            assert(ids[i] == id);
        }
    }
    assert forall|i: int, j: int| 0 <= i < j < ids.len() implies name_le(
        names[#[trigger] ids[i]],
        names[#[trigger] ids[j]],
    ) by {
        assert(name_le(keys[order[i]], keys[order[j]]));
        assert(keys[order[i]] == entries[order[i]].key@);
        assert(keys[order[j]] == entries[order[j]].key@);
    }
}

/// A listing holds exactly the identifiers of its entries.
pub proof fn lemma_listing_holds_entries<Id>(ids: Seq<Id>, entries: Seq<Entry<Id>>, id: Id)
    requires
        is_listing_of(ids, entries),
    ensures
        ids.len() == entries.len(),
        ids.contains(id) <==> exists|k: int| 0 <= k < entries.len() && #[trigger] entries[k].id == id,
{
    let order = choose|order: Seq<int>|
        is_stable_order(keys_of(entries), order) && arranged(entries, order, ids);
    if ids.contains(id) {
        let i = choose|i: int| 0 <= i < ids.len() && ids[i] == id;
        assert(entries[order[i]].id == id);
    }
    if exists|k: int| 0 <= k < entries.len() && #[trigger] entries[k].id == id {
        let k = choose|k: int| 0 <= k < entries.len() && #[trigger] entries[k].id == id;
        assert(order.contains(k));
        let i = choose|i: int| 0 <= i < order.len() && order[i] == k;
        assert(ids[i] == id);
    }
}

/// Two stable orders of the same keys agree up to the position `upto`.
proof fn lemma_stable_orders_agree(keys: Seq<Seq<char>>, first: Seq<int>, second: Seq<int>, upto: int)
    requires
        is_stable_order(keys, first),
        is_stable_order(keys, second),
        0 <= upto <= keys.len(),
    ensures
        forall|i: int| 0 <= i < upto ==> first[i] == second[i],
    decreases upto,
{
    if upto > 0 {
        lemma_stable_orders_agree(keys, first, second, upto - 1);
        let at = upto - 1;
        let a = first[at];
        let b = second[at];
        if a != b {
            assert(second.contains(a));
            let m = choose|m: int| 0 <= m < second.len() && second[m] == a;
            if m < at {
                assert(first[m] == second[m]);
            }
            assert(at < m);
            assert(first.contains(b));
            let n = choose|n: int| 0 <= n < first.len() && first[n] == b;
            if n < at {
                assert(second[n] == first[n]);
            }
            assert(at < n);
            assert(name_le(keys[second[at]], keys[second[m]]));
            assert(name_le(keys[first[at]], keys[first[n]]));
            assert(first[at] < first[n]);
            assert(second[at] < second[m]);
        }
    }
}

/// The entries decide the listing: two lists that both hold the identifiers
/// of `entries` sorted by key, entries with equal keys in the order given,
/// are the same list.
pub proof fn lemma_listing_is_unique<Id>(first: Seq<Id>, second: Seq<Id>, entries: Seq<Entry<Id>>)
    requires
        is_listing_of(first, entries),
        is_listing_of(second, entries),
    ensures
        first == second,
{
    let keys = keys_of(entries);
    let one = choose|order: Seq<int>| is_stable_order(keys, order) && arranged(entries, order, first);
    let other = choose|order: Seq<int>|
        is_stable_order(keys, order) && arranged(entries, order, second);
    lemma_stable_orders_agree(keys, one, other, keys.len() as int);
    assert(first =~= second);
}

/// The cursor follows the entity: when the identifier under the cursor is
/// among the entries that a list is rebuilt from, the cursor is on that
/// identifier afterwards, wherever the other entries have moved it.
pub proof fn lemma_selection_preserved<Id>(
    before: ListView<Id>,
    entries: Seq<Entry<Id>>,
    after: ListView<Id>,
    id: Id,
    at: int,
)
    requires
        is_synced(before, entries, after),
        before.selected_id() == Some(id),
        0 <= at < entries.len(),
        entries[at].id == id,
    ensures
        after.selected_id() == Some(id),
{
    lemma_listing_holds_entries(after.items, entries, id);
}

/// The cursor falls back: when the identifier under the cursor is not among
/// the entries that a list is rebuilt from, or the cursor was on no line,
/// the cursor is on the first line afterwards.
pub proof fn lemma_selection_falls_back<Id>(
    before: ListView<Id>,
    entries: Seq<Entry<Id>>,
    after: ListView<Id>,
)
    requires
        is_synced(before, entries, after),
        before.selected_id() matches Some(id) ==> forall|k: int|
            0 <= k < entries.len() ==> (#[trigger] entries[k]).id != id,
    ensures
        after.selected == 0,
{
    if before.selected_id() is Some {
        lemma_listing_holds_entries(after.items, entries, before.selected_id()->0);
    }
}

/// Sorts `items` by key, keeping entries with equal keys in their order.
fn sort_entries<Id>(items: Vec<Entry<Id>>) -> (r: (Vec<Entry<Id>>, Ghost<Seq<int>>))
    ensures
        is_stable_order(keys_of(items@), r.1@),
        r.0.len() == items.len(),
        forall|i: int| 0 <= i < r.0.len() ==> #[trigger] r.0@[i] == items@[r.1@[i]],
{
    let ghost input = items@;
    let ghost keys = keys_of(input);
    let mut rest = items;
    let mut out: Vec<Entry<Id>> = Vec::new();
    let ghost mut order: Seq<int> = Seq::empty();
    while rest.len() > 0
        invariant
            keys == keys_of(input),
            rest.len() <= input.len(),
            rest@ == input.take(rest.len() as int),
            out.len() == order.len(),
            order.len() == input.len() - rest.len(),
            order.no_duplicates(),
            forall|k: int| rest.len() <= k < input.len() ==> #[trigger] order.contains(k),
            forall|i: int|
                0 <= i < order.len() ==> rest.len() <= #[trigger] order[i] < input.len() && out@[i]
                    == input[order[i]],
            forall|i: int, j: int|
                0 <= i < j < order.len() ==> name_le(
                    #[trigger] keys[order[i]],
                    #[trigger] keys[order[j]],
                ),
            forall|i: int, j: int|
                0 <= i < j < order.len() && name_le(
                    #[trigger] keys[order[j]],
                    #[trigger] keys[order[i]],
                ) ==> order[i] < order[j],
        decreases rest.len(),
    {
        let entry = rest.pop().unwrap();
        let ghost at = rest.len() as int;
        assert(entry == input[at]);
        assert(rest@ =~= input.take(at));
        let mut p: usize = 0;
        while p < out.len() && !name_precedes(entry.key.as_str(), out[p].key.as_str())
            invariant
                p <= out.len(),
                out.len() == order.len(),
                entry == input[at],
                0 <= at < input.len(),
                keys == keys_of(input),
                forall|i: int|
                    0 <= i < order.len() ==> at < #[trigger] order[i] < input.len() && out@[i]
                        == input[order[i]],
                forall|k: int| 0 <= k < p ==> !name_le(keys[at], #[trigger] keys[order[k]]),
            decreases out.len() - p,
        {
            p += 1;
        }
        let ghost old_order = order;
        out.insert(p, entry);
        proof {
            order = old_order.insert(p as int, at);
            assert forall|k: int| at <= k < input.len() implies #[trigger] order.contains(k) by {
                if k == at {
                    assert(order[p as int] == at);
                } else {
                    assert(old_order.contains(k));
                    let i = choose|i: int| 0 <= i < old_order.len() && old_order[i] == k;
                    let j = if i < p { i } else { i + 1 };
                    assert(order[j] == k);
                }
            }
            assert forall|i: int| 0 <= i < order.len() implies at <= #[trigger] order[i]
                < input.len() && out@[i] == input[order[i]] by {
                if i < p {
                    assert(order[i] == old_order[i]);
                } else if i > p {
                    assert(order[i] == old_order[i - 1]);
                }
            }
            assert(order.no_duplicates()) by {
                assert forall|i: int, j: int|
                    0 <= i < order.len() && 0 <= j < order.len() && i != j implies order[i]
                    != order[j] by {
                    let a = if i < p { i } else { i - 1 };
                    let b = if j < p { j } else { j - 1 };
                    if i != p && j != p {
                        assert(order[i] == old_order[a]);
                        assert(order[j] == old_order[b]);
                    } else if i == p {
                        assert(order[j] == old_order[b]);
                    } else {
                        assert(order[i] == old_order[a]);
                    }
                }
            }
            assert forall|i: int, j: int| 0 <= i < j < order.len() implies name_le(
                #[trigger] keys[order[i]],
                #[trigger] keys[order[j]],
            ) by {
                let a = if i < p { i } else { i - 1 };
                let b = if j < p { j } else { j - 1 };
                if i != p && j != p {
                    assert(order[i] == old_order[a]);
                    assert(order[j] == old_order[b]);
                } else if i == p {
                    assert(order[j] == old_order[b]);
                    assert(name_le(keys[at], keys[old_order[p as int]]));
                    if b > p {
                        assert(name_le(keys[old_order[p as int]], keys[old_order[b]]));
                        lemma_bytes_le_transitive(
                            vstd::utf8::encode_utf8(keys[at]),
                            vstd::utf8::encode_utf8(keys[old_order[p as int]]),
                            vstd::utf8::encode_utf8(keys[old_order[b]]),
                        );
                    }
                } else {
                    assert(order[i] == old_order[a]);
                    assert(!name_le(keys[at], keys[old_order[a]]));
                    lemma_bytes_le_total(
                        vstd::utf8::encode_utf8(keys[at]),
                        vstd::utf8::encode_utf8(keys[old_order[a]]),
                    );
                }
            }
            assert forall|i: int, j: int|
                0 <= i < j < order.len() && name_le(
                    #[trigger] keys[order[j]],
                    #[trigger] keys[order[i]],
                ) implies order[i] < order[j] by {
                let a = if i < p { i } else { i - 1 };
                let b = if j < p { j } else { j - 1 };
                if i != p && j != p {
                    assert(order[i] == old_order[a]);
                    assert(order[j] == old_order[b]);
                } else if i == p {
                    assert(order[j] == old_order[b]);
                } else {
                    assert(order[i] == old_order[a]);
                    assert(!name_le(keys[at], keys[old_order[a]]));
                }
            }
        }
    }
    proof {
        assert(order.len() == keys.len());
    }
    (out, Ghost(order))
}

impl<T> Default for ExplorerGroup<T> {
    fn default() -> (group: Self)
        ensures
            group@.items.len() == 0,
            group@.selected == 0,
    {
        Self { items: Vec::new(), selected: 0 }
    }
}

impl<Id: Identifier> ExplorerGroup<Id> {
    /// Rebuilds the list from `items`: their identifiers sorted by key,
    /// entries with equal keys in the order given. The cursor stays on the
    /// identifier it was on, and goes to the first line when that one is gone.
    pub fn sync_and_sort(&mut self, items: Vec<Entry<Id>>)
        ensures
            is_synced(old(self)@, items@, final(self)@),
            final(self)@.wf(),
    {
        let selected_id = if self.selected < self.items.len() {
            Some(self.items[self.selected])
        } else {
            None
        };
        let ghost entries = items@;
        let (sorted, Ghost(order)) = sort_entries(items);
        let mut ids: Vec<Id> = Vec::new();
        let mut i: usize = 0;
        while i < sorted.len()
            invariant
                i <= sorted.len(),
                ids.len() == i,
                forall|k: int| 0 <= k < i ==> #[trigger] ids@[k] == sorted@[k].id,
            decreases sorted.len() - i,
        {
            ids.push(sorted[i].id);
            i += 1;
        }
        let mut cursor: usize = 0;
        if let Some(id) = selected_id {
            let mut k: usize = 0;
            while k < ids.len() && !ids[k].same(&id)
                invariant
                    k <= ids.len(),
                    forall|j: int| 0 <= j < k ==> ids@[j] != id,
                decreases ids.len() - k,
            {
                k += 1;
            }
            if k < ids.len() {
                cursor = k;
            }
        }
        self.selected = cursor;
        self.items = ids;
        proof {
            assert(arranged(entries, order, self.items@));
        }
    }
}

/// A list that can be walked and read against the store.
pub trait Explorer<T>: View<V = ListView<T>> {
    /// Moves the cursor one line up, unless it is on the first line.
    fn previous(&mut self)
        ensures
            final(self)@ == old(self)@.previous(),
    ;

    /// Moves the cursor one line down, unless it is on the last line.
    fn next(&mut self)
        ensures
            final(self)@ == old(self)@.next(),
    ;

    /// The entities behind the lines of the list, in its order.
    fn items<'a, I: FromId<T>>(&'a self, repository: &'a Repository) -> (found: Vec<&'a I>)
        requires
            forall|i: int|
                0 <= i < self@.items.len() ==> #[trigger] I::is_stored(self@.items[i], repository@),
        ensures
            found.len() == self@.items.len(),
            forall|i: int|
                0 <= i < found.len() ==> (#[trigger] found@[i])@ == I::stored(
                    self@.items[i],
                    repository@,
                ),
    ;

    /// The identifier under the cursor.
    fn selected_raw<'a>(&'a self) -> (id: Option<&'a T>)
        ensures
            match id {
                Some(id) => self@.selected_id() == Some(*id),
                None => self@.selected_id() is None,
            },
    ;

    /// The entity under the cursor.
    fn selected<'a, I: FromId<T>>(&'a self, repository: &'a Repository) -> (found: Option<&'a I>)
        requires
            self@.selected_id() matches Some(id) ==> I::is_stored(id, repository@),
        ensures
            match found {
                Some(entity) => self@.selected_id() matches Some(id) && entity@ == I::stored(
                    id,
                    repository@,
                ),
                None => self@.selected_id() is None,
            },
    ;
}

impl<T> Explorer<T> for ExplorerGroup<T> {
    fn previous(&mut self) {
        if self.selected > 0 {
            self.selected -= 1;
        }
    }

    fn next(&mut self) {
        if self.items.len() > 0 && self.selected < self.items.len() - 1 {
            self.selected += 1;
        }
    }

    fn items<'a, I: FromId<T>>(&'a self, repository: &'a Repository) -> (found: Vec<&'a I>) {
        let mut found: Vec<&'a I> = Vec::new();
        let mut i: usize = 0;
        while i < self.items.len()
            invariant
                i <= self.items.len(),
                found.len() == i,
                forall|k: int|
                    0 <= k < self@.items.len() ==> #[trigger] I::is_stored(
                        self@.items[k],
                        repository@,
                    ),
                forall|k: int|
                    0 <= k < i ==> (#[trigger] found@[k])@ == I::stored(self@.items[k], repository@),
            decreases self.items.len() - i,
        {
            assert(I::is_stored(self@.items[i as int], repository@));
            found.push(I::from_id(&self.items[i], repository));
            i += 1;
        }
        found
    }

    fn selected_raw<'a>(&'a self) -> (id: Option<&'a T>) {
        if self.selected < self.items.len() {
            Some(&self.items[self.selected])
        } else {
            None
        }
    }

    fn selected<'a, I: FromId<T>>(&'a self, repository: &'a Repository) -> (found: Option<&'a I>) {
        if self.selected < self.items.len() {
            Some(I::from_id(&self.items[self.selected], repository))
        } else {
            None
        }
    }
}

/// The project list, and the task list of the project under its cursor.
#[derive(Debug)]
pub struct ExplorerState {
    pub projects: ExplorerGroup<ProjectId>,
    pub collapsed: bool,
    pub tasks: Option<ExplorerGroup<TaskId>>,
}

/// What the two lists are, as a mathematical value.
pub struct ExplorerView {
    pub projects: ListView<ProjectId>,
    pub collapsed: bool,
    pub tasks: Option<ListView<TaskId>>,
}

impl View for ExplorerState {
    type V = ExplorerView;

    open spec fn view(&self) -> ExplorerView {
        ExplorerView {
            projects: self.projects@,
            collapsed: self.collapsed,
            tasks: match self.tasks {
                Some(tasks) => Some(tasks@),
                None => None,
            },
        }
    }
}

impl ExplorerView {
    /// The task list goes with the project under the cursor: it holds the
    /// stored tasks that this project lists, by name; there is none when no
    /// project is under the cursor.
    pub open spec fn cascaded(self, store: RepositoryView) -> bool {
        match self.projects.selected_id() {
            Some(project) => self.tasks matches Some(tasks) && tasks.wf() && store.lists_tasks(
                project,
                tasks.items,
            ),
            None => self.tasks is None,
        }
    }

    /// The task list was just rebuilt for the project under the cursor: it
    /// goes with that project, and its cursor is on the first line.
    pub open spec fn recascaded(self, store: RepositoryView) -> bool {
        &&& self.cascaded(store)
        &&& self.tasks matches Some(tasks) ==> tasks.selected == 0
    }

    /// Both lists show what `store` holds.
    pub open spec fn shows(self, store: RepositoryView) -> bool {
        &&& self.projects.wf()
        &&& store.lists_projects(self.projects.items)
        &&& self.cascaded(store)
    }
}

/// While the lists show the store, there is a task list exactly when the
/// project list has a line, and the cursor of each list is on one of its
/// lines or at 0 where it has none.
pub proof fn lemma_task_list_goes_with_projects(explorer: ExplorerView, store: RepositoryView)
    requires
        explorer.shows(store),
    ensures
        explorer.tasks is Some <==> explorer.projects.items.len() > 0,
        explorer.projects.wf(),
        explorer.tasks matches Some(tasks) ==> tasks.wf(),
{
}

/// Moving the cursor leaves it on a line of the list.
pub proof fn lemma_moves_keep_the_cursor_on_a_line<T>(list: ListView<T>)
    requires
        list.wf(),
    ensures
        list.previous().wf(),
        list.next().wf(),
        list.previous().items == list.items,
        list.next().items == list.items,
{
}

impl Default for ExplorerState {
    fn default() -> (state: Self)
        ensures
            state@.projects.items.len() == 0,
            state@.projects.selected == 0,
            !state@.collapsed,
            state@.tasks is None,
    {
        Self { projects: ExplorerGroup::default(), collapsed: false, tasks: None }
    }
}

impl ExplorerState {
    /// Rebuilds the project list from `repository`, the cursor staying on
    /// the project it was on, then the task list for the project under the
    /// cursor.
    pub fn sync(&mut self, repository: &Repository)
        ensures
            final(self)@.collapsed == old(self)@.collapsed,
            final(self)@.shows(repository@),
            final(self)@.recascaded(repository@),
            is_cursor_for(
                final(self)@.projects.selected,
                old(self)@.projects.selected_id(),
                final(self)@.projects.items,
            ),
    {
        let entries = repository.project_entries();
        let ghost offered = entries@;
        self.projects.sync_and_sort(entries);
        proof {
            lemma_listing_by_name(
                self.projects@.items,
                offered,
                repository@.projects.dom(),
                repository@.project_names(),
            );
            if self.projects@.selected_id() is Some {
                assert(self.projects@.items.contains(self.projects@.items[self.projects@.selected]));
            }
        }
        self.project_changed(repository);
    }

    /// Rebuilds the task list for the project under the cursor: the stored
    /// tasks that this project lists, by name, the cursor on the first. With
    /// no project under the cursor there is no task list.
    pub fn project_changed(&mut self, repository: &Repository)
        requires
            old(self)@.projects.selected_id() matches Some(id) ==> repository@.projects.contains_key(
                id,
            ),
        ensures
            final(self)@.projects == old(self)@.projects,
            final(self)@.collapsed == old(self)@.collapsed,
            final(self)@.recascaded(repository@),
    {
        if let Some(project) = self.projects.selected::<Project>(repository) {
            let ghost id = self.projects@.selected_id()->0;
            let entries = repository.task_entries(project);
            let ghost offered = entries@;
            let mut tasks = ExplorerGroup::default();
            tasks.sync_and_sort(entries);
            proof {
                assert(repository@.listed_tasks(id) =~= Set::new(
                    |t: TaskId| repository@.tasks.contains_key(t) && project.tasks@.contains(t),
                ));
                lemma_listing_by_name(
                    tasks@.items,
                    offered,
                    repository@.listed_tasks(id),
                    repository@.task_names(),
                );
            }
            self.tasks = Some(tasks);
        } else {
            self.tasks = None;
        }
    }

    /// The task list.
    pub fn tasks(&self) -> (tasks: &ExplorerGroup<TaskId>)
        requires
            self@.tasks is Some,
        ensures
            self@.tasks == Some(tasks@),
    {
        self.tasks.as_ref().unwrap()
    }
}

} // verus!
