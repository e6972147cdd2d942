//! Named todo lists: the state behind the `todo_*` messages and the rules by
//! which each message changes it.
use vstd::prelude::*;
use crate::message::{message_type, text_field, unsigned_field, Message};
use crate::text::{text_eq, texts};
use std::collections::HashMap;

verus! {

/// One named list of tasks.
pub struct TodoList {
    pub name: String,
    pub items: Vec<String>,
}

/// A list as a value: its name and its tasks.
pub type Entry = (Seq<char>, Seq<Seq<char>>);

impl TodoList {
    pub open spec fn entry(self) -> Entry {
        (self.name@, texts(self.items@))
    }
}

pub open spec fn entries_of(v: Seq<TodoList>) -> Seq<Entry> {
    v.map_values(|l: TodoList| l.entry())
}

/// All todo lists, each name at most once, in the order they were created.
pub struct TodoLists {
    lists: Vec<TodoList>,
}

impl View for TodoLists {
    type V = Seq<Entry>;

    closed spec fn view(&self) -> Seq<Entry> {
        entries_of(self.lists@)
    }
}

/// No two lists share a name.
pub open spec fn unique_names(e: Seq<Entry>) -> bool {
    forall|i: int, j: int| 0 <= i < e.len() && 0 <= j < e.len() && i != j ==> e[i].0 != e[j].0
}

pub open spec fn has_list(e: Seq<Entry>, name: Seq<char>) -> bool {
    exists|i: int| 0 <= i < e.len() && e[i].0 == name
}

/// Where the list called `name` stands (meaningful when it exists).
pub open spec fn list_index(e: Seq<Entry>, name: Seq<char>) -> int {
    choose|i: int| 0 <= i < e.len() && e[i].0 == name
}

/// The tasks of the list called `name` (meaningful when it exists).
pub open spec fn items_of(e: Seq<Entry>, name: Seq<char>) -> Seq<Seq<char>> {
    e[list_index(e, name)].1
}

/// The tasks of the list called `name`, or none when there is no such list.
pub open spec fn items_or_empty(e: Seq<Entry>, name: Seq<char>) -> Seq<Seq<char>> {
    if has_list(e, name) {
        items_of(e, name)
    } else {
        Seq::empty()
    }
}

/// Map insertion: the list called `name` now holds `items`, in its old place
/// if it existed, else as a new last list.
pub open spec fn put_list(e: Seq<Entry>, name: Seq<char>, items: Seq<Seq<char>>) -> Seq<Entry> {
    if has_list(e, name) {
        e.update(list_index(e, name), (name, items))
    } else {
        e.push((name, items))
    }
}

/// Map removal of the list called `name`, if there is one.
pub open spec fn drop_list(e: Seq<Entry>, name: Seq<char>) -> Seq<Entry> {
    if has_list(e, name) {
        e.remove(list_index(e, name))
    } else {
        e
    }
}

/// The lists as a map from name to tasks.
pub open spec fn lists_map(e: Seq<Entry>) -> Map<Seq<char>, Seq<Seq<char>>> {
    Map::new(|k: Seq<char>| has_list(e, k), |k: Seq<char>| items_of(e, k))
}

/// The number of tasks over all lists.
pub open spec fn total_items(e: Seq<Entry>) -> nat
    decreases e.len(),
{
    if e.len() == 0 {
        0
    } else {
        total_items(e.drop_last()) + e.last().1.len()
    }
}

pub proof fn lemma_index_unique(e: Seq<Entry>, name: Seq<char>, i: int)
    requires
        unique_names(e),
        0 <= i < e.len(),
        e[i].0 == name,
    ensures
        has_list(e, name),
        list_index(e, name) == i,
{
    let k = list_index(e, name);
}

// ---- what each message does to the lists ----

/// `todo_add`: the task joins the end of the list, which is created if missing.
pub open spec fn add_item(e: Seq<Entry>, list: Seq<char>, text: Seq<char>) -> Seq<Entry> {
    put_list(e, list, items_or_empty(e, list).push(text))
}

/// `todo_remove`: drops the task at `id`, when the list exists and `id` is in range.
pub open spec fn remove_item(e: Seq<Entry>, list: Seq<char>, id: u64) -> Option<Seq<Entry>> {
    if has_list(e, list) && (id as usize) < items_of(e, list).len() {
        Some(put_list(e, list, items_of(e, list).remove((id as usize) as int)))
    } else {
        None
    }
}

/// `todo_reorder`: moves the task at `from` so that it stands at `to`.
pub open spec fn reorder_item(e: Seq<Entry>, list: Seq<char>, from: u64, to: u64) -> Option<Seq<Entry>> {
    if has_list(e, list) && from < items_of(e, list).len() && to < items_of(e, list).len() {
        let items = items_of(e, list);
        Some(put_list(e, list, items.remove(from as int).insert(to as int, items[from as int])))
    } else {
        None
    }
}

/// `todo_edit`: replaces the text of the task at `id`.
pub open spec fn edit_item(e: Seq<Entry>, list: Seq<char>, id: u64, text: Seq<char>) -> Option<Seq<Entry>> {
    if has_list(e, list) && (id as usize) < items_of(e, list).len() {
        Some(put_list(e, list, items_of(e, list).update((id as usize) as int, text)))
    } else {
        None
    }
}

/// `todo_list_create`: a new empty list, unless one has the name already.
pub open spec fn create_list(e: Seq<Entry>, name: Seq<char>) -> Option<Seq<Entry>> {
    if !has_list(e, name) {
        Some(e.push((name, Seq::empty())))
    } else {
        None
    }
}

/// The list that always exists.
pub open spec fn default_name() -> Seq<char> {
    "default"@
}

/// `todo_list_delete`: removes the list, but only while more than one list
/// exists, and never the `"default"` list.
pub open spec fn delete_list(e: Seq<Entry>, name: Seq<char>) -> Option<Seq<Entry>> {
    if e.len() > 1 && name != default_name() {
        Some(drop_list(e, name))
    } else {
        None
    }
}

/// `todo_list_rename`: the tasks of `old` move to `new` (replacing any list so
/// named); the `"default"` list keeps its name.
pub open spec fn rename_list(e: Seq<Entry>, old: Seq<char>, new: Seq<char>) -> Option<Seq<Entry>> {
    if has_list(e, old) && (old != default_name() || new == default_name()) {
        Some(put_list(drop_list(e, old), new, items_of(e, old)))
    } else {
        None
    }
}

/// `todo_move`: the task at `id` of `from` goes to the end of the existing list `to`.
pub open spec fn move_item(e: Seq<Entry>, from: Seq<char>, id: u64, to: Seq<char>) -> Option<Seq<Entry>> {
    if to != from && has_list(e, to) && has_list(e, from) && (id as usize) < items_of(e, from).len() {
        let item = items_of(e, from)[(id as usize) as int];
        let e1 = put_list(e, from, items_of(e, from).remove((id as usize) as int));
        Some(put_list(e1, to, items_of(e1, to).push(item)))
    } else {
        None
    }
}

impl TodoLists {
    /// The invariant: no two lists share a name.
    pub open spec fn wf(&self) -> bool {
        unique_names(self@)
    }

    /// No lists at all.
    pub fn new() -> (res: TodoLists)
        ensures
            res.wf(),
            res@ == Seq::<Entry>::empty(),
    {
        let res = TodoLists { lists: Vec::new() };
        assert(res@ =~= Seq::<Entry>::empty());
        res
    }

    /// The lists, in order.
    pub fn lists(&self) -> (res: &Vec<TodoList>)
        ensures
            entries_of(res@) == self@,
    {
        &self.lists
    }

    /// Where the list called `name` stands.
    pub fn position(&self, name: &str) -> (res: Option<usize>)
        requires
            self.wf(),
        ensures
            match res {
                Some(i) => has_list(self@, name@) && i == list_index(self@, name@) && i
                    < self@.len(),
                None => !has_list(self@, name@),
            },
    {
        let mut i: usize = 0;
        while i < self.lists.len()
            invariant
                self.wf(),
                i <= self.lists.len(),
                self@.len() == self.lists.len(),
                forall|j: int| 0 <= j < i ==> self@[j].0 != name@,
            decreases self.lists.len() - i,
        {
            if text_eq(self.lists[i].name.as_str(), name) {
                proof {
                    lemma_index_unique(self@, name@, i as int);
                }
                return Some(i);
            }
            i = i + 1;
        }
        None
    }
}


proof fn lemma_update_keeps_unique(e: Seq<Entry>, i: int, items: Seq<Seq<char>>)
    requires
        unique_names(e),
        0 <= i < e.len(),
    ensures
        unique_names(e.update(i, (e[i].0, items))),
{
}

proof fn lemma_push_keeps_unique(e: Seq<Entry>, name: Seq<char>, items: Seq<Seq<char>>)
    requires
        unique_names(e),
        !has_list(e, name),
    ensures
        unique_names(e.push((name, items))),
        has_list(e.push((name, items)), name),
        list_index(e.push((name, items)), name) == e.len(),
{
    let f = e.push((name, items));
    assert(f[e.len() as int].0 == name);
    lemma_index_unique(f, name, e.len() as int);
}

proof fn lemma_remove_keeps_unique(e: Seq<Entry>, i: int)
    requires
        unique_names(e),
        0 <= i < e.len(),
    ensures
        unique_names(e.remove(i)),
{
    let f = e.remove(i);
    assert forall|a: int, b: int| 0 <= a < f.len() && 0 <= b < f.len() && a != b implies f[a].0
        != f[b].0 by {
        let a2 = if a < i { a } else { a + 1 };
        let b2 = if b < i { b } else { b + 1 };
        assert(f[a] == e[a2]);
        assert(f[b] == e[b2]);
    }
}

impl TodoLists {
    /// Swaps in new tasks for the list at `i`, handing back the old ones.
    fn swap_items(&mut self, i: usize, items: Vec<String>) -> (old_items: Vec<String>)
        requires
            old(self).wf(),
            i < old(self)@.len(),
        ensures
            final(self).wf(),
            final(self)@ == old(self)@.update(i as int, (old(self)@[i as int].0, texts(items@))),
            texts(old_items@) == old(self)@[i as int].1,
    {
        let mut tmp = items;
        std::mem::swap(&mut self.lists[i].items, &mut tmp);
        proof {
            assert(self@ =~= old(self)@.update(i as int, (old(self)@[i as int].0, texts(items@))));
            lemma_update_keeps_unique(old(self)@, i as int, texts(items@));
        }
        tmp
    }

    /// Appends a new list; its name must be new.
    fn push_list(&mut self, name: String, items: Vec<String>)
        requires
            old(self).wf(),
            !has_list(old(self)@, name@),
        ensures
            final(self).wf(),
            final(self)@ == old(self)@.push((name@, texts(items@))),
    {
        let ghost n = name@;
        let ghost t = texts(items@);
        self.lists.push(TodoList { name, items });
        proof {
            assert(self@ =~= old(self)@.push((n, t)));
            lemma_push_keeps_unique(old(self)@, n, t);
        }
    }

    /// Map insertion: the list called `name` now holds `items`.
    pub fn insert_list(&mut self, name: String, items: Vec<String>)
        requires
            old(self).wf(),
        ensures
            final(self).wf(),
            final(self)@ == put_list(old(self)@, name@, texts(items@)),
    {
        match self.position(name.as_str()) {
            Some(i) => {
                let _ = self.swap_items(i, items);
            },
            None => {
                self.push_list(name, items);
            },
        }
    }

    /// Map removal: takes out the list called `name`, handing back its tasks.
    pub fn remove_list(&mut self, name: &str) -> (res: Option<Vec<String>>)
        requires
            old(self).wf(),
        ensures
            final(self).wf(),
            final(self)@ == drop_list(old(self)@, name@),
            res is Some == has_list(old(self)@, name@),
            res matches Some(items) ==> texts(items@) == items_of(old(self)@, name@),
    {
        match self.position(name) {
            Some(i) => {
                let l = self.lists.remove(i);
                proof {
                    assert(self@ =~= old(self)@.remove(i as int));
                    lemma_remove_keeps_unique(old(self)@, i as int);
                }
                Some(l.items)
            },
            None => None,
        }
    }

    /// `todo_add`: appends `text` to the list called `list`, creating the list if needed.
    pub fn add(&mut self, list: String, text: String)
        requires
            old(self).wf(),
        ensures
            final(self).wf(),
            final(self)@ == add_item(old(self)@, list@, text@),
    {
        match self.position(list.as_str()) {
            Some(i) => {
                let mut items = self.swap_items(i, Vec::new());
                let ghost old_items = items@;
                items.push(text);
                assert(texts(items@) =~= texts(old_items).push(text@));
                let _ = self.swap_items(i, items);
                assert(self@ =~= add_item(old(self)@, list@, text@));
            },
            None => {
                let mut items = Vec::new();
                items.push(text);
                assert(texts(items@) =~= Seq::<Seq<char>>::empty().push(text@));
                self.push_list(list, items);
            },
        }
    }

    /// `todo_remove`: drops the task at `id` of `list`; says whether anything changed.
    pub fn remove(&mut self, list: &str, id: u64) -> (changed: bool)
        requires
            old(self).wf(),
        ensures
            final(self).wf(),
            changed == remove_item(old(self)@, list@, id) is Some,
            final(self)@ == match remove_item(old(self)@, list@, id) {
                Some(e) => e,
                None => old(self)@,
            },
    {
        match self.position(list) {
            Some(i) => {
                if (id as usize) < self.lists[i].items.len() {
                    let mut items = self.swap_items(i, Vec::new());
                    let ghost old_items = items@;
                    let _ = items.remove(id as usize);
                    assert(texts(items@) =~= texts(old_items).remove((id as usize) as int));
                    let _ = self.swap_items(i, items);
                    assert(self@ =~= remove_item(old(self)@, list@, id)->0);
                    true
                } else {
                    false
                }
            },
            None => false,
        }
    }

    /// `todo_reorder`: moves the task at `from` of `list` to position `to`.
    pub fn reorder(&mut self, list: &str, from: u64, to: u64) -> (changed: bool)
        requires
            old(self).wf(),
        ensures
            final(self).wf(),
            changed == reorder_item(old(self)@, list@, from, to) is Some,
            final(self)@ == match reorder_item(old(self)@, list@, from, to) {
                Some(e) => e,
                None => old(self)@,
            },
    {
        match self.position(list) {
            Some(i) => {
                let n = self.lists[i].items.len();
                if from < n as u64 && to < n as u64 {
                    let mut items = self.swap_items(i, Vec::new());
                    let ghost old_items = items@;
                    let item = items.remove(from as usize);
                    items.insert(to as usize, item);
                    assert(texts(items@) =~= texts(old_items).remove(from as int).insert(
                        to as int,
                        texts(old_items)[from as int],
                    ));
                    let _ = self.swap_items(i, items);
                    assert(self@ =~= reorder_item(old(self)@, list@, from, to)->0);
                    true
                } else {
                    false
                }
            },
            None => false,
        }
    }

    /// `todo_edit`: replaces the text of the task at `id` of `list`.
    pub fn edit(&mut self, list: &str, id: u64, text: String) -> (changed: bool)
        requires
            old(self).wf(),
        ensures
            final(self).wf(),
            changed == edit_item(old(self)@, list@, id, text@) is Some,
            final(self)@ == match edit_item(old(self)@, list@, id, text@) {
                Some(e) => e,
                None => old(self)@,
            },
    {
        match self.position(list) {
            Some(i) => {
                if (id as usize) < self.lists[i].items.len() {
                    let mut items = self.swap_items(i, Vec::new());
                    let ghost old_items = items@;
                    let ghost t = text@;
                    items.set(id as usize, text);
                    assert(texts(items@) =~= texts(old_items).update((id as usize) as int, t));
                    let _ = self.swap_items(i, items);
                    assert(self@ =~= edit_item(old(self)@, list@, id, t)->0);
                    true
                } else {
                    false
                }
            },
            None => false,
        }
    }
}


impl TodoLists {
    /// `todo_list_create`: adds an empty list unless the name is taken.
    pub fn create(&mut self, name: String) -> (changed: bool)
        requires
            old(self).wf(),
        ensures
            final(self).wf(),
            changed == create_list(old(self)@, name@) is Some,
            final(self)@ == match create_list(old(self)@, name@) {
                Some(e) => e,
                None => old(self)@,
            },
    {
        match self.position(name.as_str()) {
            Some(_) => false,
            None => {
                let items: Vec<String> = Vec::new();
                assert(texts(items@) =~= Seq::<Seq<char>>::empty());
                self.push_list(name, items);
                true
            },
        }
    }

    /// `todo_list_delete`: removes the named list while more than one list
    /// exists; the `"default"` list is never removed.
    pub fn delete(&mut self, name: &str) -> (changed: bool)
        requires
            old(self).wf(),
        ensures
            final(self).wf(),
            changed == delete_list(old(self)@, name@) is Some,
            final(self)@ == match delete_list(old(self)@, name@) {
                Some(e) => e,
                None => old(self)@,
            },
    {
        if self.lists.len() > 1 && !text_eq(name, "default") {
            let _ = self.remove_list(name);
            true
        } else {
            false
        }
    }

    /// `todo_list_rename`: the tasks of `old_name` now stand under `new_name`;
    /// the `"default"` list cannot be renamed to another name.
    pub fn rename(&mut self, old_name: &str, new_name: String) -> (changed: bool)
        requires
            old(self).wf(),
        ensures
            final(self).wf(),
            changed == rename_list(old(self)@, old_name@, new_name@) is Some,
            final(self)@ == match rename_list(old(self)@, old_name@, new_name@) {
                Some(e) => e,
                None => old(self)@,
            },
    {
        if text_eq(old_name, "default") && !text_eq(new_name.as_str(), "default") {
            return false;
        }
        match self.remove_list(old_name) {
            Some(items) => {
                self.insert_list(new_name, items);
                true
            },
            None => false,
        }
    }

    /// `todo_move`: the task at `id` of `from` goes to the end of the list `to`.
    pub fn move_to(&mut self, from: &str, id: u64, to: &str) -> (changed: bool)
        requires
            old(self).wf(),
        ensures
            final(self).wf(),
            changed == move_item(old(self)@, from@, id, to@) is Some,
            final(self)@ == match move_item(old(self)@, from@, id, to@) {
                Some(e) => e,
                None => old(self)@,
            },
    {
        if text_eq(to, from) {
            return false;
        }
        let j = match self.position(to) {
            Some(j) => j,
            None => { return false; },
        };
        let i = match self.position(from) {
            Some(i) => i,
            None => { return false; },
        };
        if (id as usize) >= self.lists[i].items.len() {
            return false;
        }
        let ghost e = self@;
        let mut items = self.swap_items(i, Vec::new());
        let ghost old_from = items@;
        let item = items.remove(id as usize);
        assert(texts(items@) =~= texts(old_from).remove((id as usize) as int));
        let _ = self.swap_items(i, items);
        let ghost e1 = self@;
        proof {
            assert(e1 == put_list(e, from@, items_of(e, from@).remove((id as usize) as int)));
            assert(e1[j as int] == e[j as int]);
            lemma_index_unique(e1, to@, j as int);
        }
        let mut dest = self.swap_items(j, Vec::new());
        let ghost old_to = dest@;
        let ghost it = item@;
        dest.push(item);
        assert(texts(dest@) =~= texts(old_to).push(it));
        let _ = self.swap_items(j, dest);
        assert(self@ =~= move_item(e, from@, id, to@)->0);
        true
    }

    /// The number of tasks over all lists, or `None` when that number does not fit a `usize`.
    pub fn item_count(&self) -> (res: Option<usize>)
        ensures
            match res {
                Some(n) => n == total_items(self@),
                None => total_items(self@) > usize::MAX,
            },
    {
        let mut total: usize = 0;
        let mut i: usize = 0;
        while i < self.lists.len()
            invariant
                i <= self.lists.len(),
                self@.len() == self.lists.len(),
                total == total_items(self@.take(i as int)),
            decreases self.lists.len() - i,
        {
            proof {
                assert(self@.take(i + 1).drop_last() =~= self@.take(i as int));
            }
            let n = self.lists[i].items.len();
            assert(n == self@[i as int].1.len());
            if total > usize::MAX - n {
                proof {
                    lemma_total_prefix(self@, i + 1);
                }
                return None;
            }
            total = total + n;
            i = i + 1;
        }
        assert(self@.take(i as int) =~= self@);
        Some(total)
    }
}

/// Totals grow with longer prefixes.
pub proof fn lemma_total_prefix(e: Seq<Entry>, k: int)
    requires
        0 <= k <= e.len(),
    ensures
        total_items(e.take(k)) <= total_items(e),
    decreases e.len() - k,
{
    if k < e.len() {
        lemma_total_prefix(e, k + 1);
        assert(e.take(k + 1).drop_last() =~= e.take(k));
    } else {
        assert(e.take(k) =~= e);
    }
}


/// What the server does after a todo message.
pub enum TodoAction {
    /// Send all lists to the client that asked.
    Reply,
    /// The lists changed: store them and send them to every client.
    Persist,
    /// Nothing.
    Nothing,
}

/// The list a message names, `"default"` when it names none.
pub open spec fn list_name_of(m: Message) -> Seq<char> {
    match text_field(m, "list"@) {
        Some(s) => s,
        None => "default"@,
    }
}

/// A change that took place is persisted; one that did not changes nothing.
pub open spec fn persisted(e: Seq<Entry>, o: Option<Seq<Entry>>) -> (Seq<Entry>, TodoAction) {
    match o {
        Some(n) => (n, TodoAction::Persist),
        None => (e, TodoAction::Nothing),
    }
}

/// The lists after a message, and what the server does next.
pub open spec fn todo_step(e: Seq<Entry>, m: Message) -> (Seq<Entry>, TodoAction) {
    let list = list_name_of(m);
    match message_type(m) {
        Some(t) => if t == "todo_list"@ {
            (e, TodoAction::Reply)
        } else if t == "todo_add"@ {
            match text_field(m, "text"@) {
                Some(x) => (add_item(e, list, x), TodoAction::Persist),
                None => (e, TodoAction::Nothing),
            }
        } else if t == "todo_remove"@ {
            match unsigned_field(m, "id"@) {
                Some(id) => persisted(e, remove_item(e, list, id)),
                None => (e, TodoAction::Nothing),
            }
        } else if t == "todo_reorder"@ {
            match (unsigned_field(m, "from"@), unsigned_field(m, "to"@)) {
                (Some(from), Some(to)) => persisted(e, reorder_item(e, list, from, to)),
                _ => (e, TodoAction::Nothing),
            }
        } else if t == "todo_edit"@ {
            match (unsigned_field(m, "id"@), text_field(m, "text"@)) {
                (Some(id), Some(x)) => persisted(e, edit_item(e, list, id, x)),
                _ => (e, TodoAction::Nothing),
            }
        } else if t == "todo_list_create"@ {
            match text_field(m, "name"@) {
                Some(n) => persisted(e, create_list(e, n)),
                None => (e, TodoAction::Nothing),
            }
        } else if t == "todo_list_delete"@ {
            match text_field(m, "name"@) {
                Some(n) => persisted(e, delete_list(e, n)),
                None => (e, TodoAction::Nothing),
            }
        } else if t == "todo_list_rename"@ {
            match (text_field(m, "old"@), text_field(m, "name"@)) {
                (Some(o), Some(n)) => persisted(e, rename_list(e, o, n)),
                _ => (e, TodoAction::Nothing),
            }
        } else if t == "todo_move"@ {
            match (unsigned_field(m, "id"@), text_field(m, "to"@)) {
                (Some(id), Some(to)) => persisted(e, move_item(e, list, id, to)),
                _ => (e, TodoAction::Nothing),
            }
        } else {
            (e, TodoAction::Nothing)
        },
        None => (e, TodoAction::Nothing),
    }
}

/// Whether a message type belongs to the todo service.
pub open spec fn is_todo_type(t: Seq<char>) -> bool {
    t == "todo_list"@ || t == "todo_add"@ || t == "todo_remove"@ || t == "todo_reorder"@
        || t == "todo_edit"@ || t == "todo_move"@ || t == "todo_list_create"@
        || t == "todo_list_delete"@ || t == "todo_list_rename"@
}

/// Whether `t` is one of the todo message types.
pub fn is_message_type(t: &str) -> (res: bool)
    ensures
        res == is_todo_type(t@),
{
    text_eq(t, "todo_list") || text_eq(t, "todo_add") || text_eq(t, "todo_remove")
        || text_eq(t, "todo_reorder") || text_eq(t, "todo_edit") || text_eq(t, "todo_move")
        || text_eq(t, "todo_list_create") || text_eq(t, "todo_list_delete")
        || text_eq(t, "todo_list_rename")
}

/// The list a message names (its `list` member), or `"default"`.
pub fn list_name(msg: &Message) -> (res: String)
    ensures
        res@ == list_name_of(*msg),
{
    match msg.text("list") {
        Some(s) => s,
        None => "default".to_owned(),
    }
}

/// Applies a todo message to the lists and says what to do next.
pub fn handle_message(lists: &mut TodoLists, msg: &Message) -> (action: TodoAction)
    requires
        old(lists).wf(),
    ensures
        final(lists).wf(),
        (final(lists)@, action) == todo_step(old(lists)@, *msg),
{
    let t = match msg.text("type") {
        Some(t) => t,
        None => { return TodoAction::Nothing; },
    };
    let t = t.as_str();
    if text_eq(t, "todo_list") {
        TodoAction::Reply
    } else if text_eq(t, "todo_add") {
        match msg.text("text") {
            Some(x) => {
                lists.add(list_name(msg), x);
                TodoAction::Persist
            },
            None => TodoAction::Nothing,
        }
    } else if text_eq(t, "todo_remove") {
        match msg.unsigned("id") {
            Some(id) => changed_action(lists.remove(list_name(msg).as_str(), id)),
            None => TodoAction::Nothing,
        }
    } else if text_eq(t, "todo_reorder") {
        match (msg.unsigned("from"), msg.unsigned("to")) {
            (Some(from), Some(to)) => changed_action(lists.reorder(list_name(msg).as_str(), from, to)),
            _ => TodoAction::Nothing,
        }
    } else if text_eq(t, "todo_edit") {
        match (msg.unsigned("id"), msg.text("text")) {
            (Some(id), Some(x)) => changed_action(lists.edit(list_name(msg).as_str(), id, x)),
            _ => TodoAction::Nothing,
        }
    } else if text_eq(t, "todo_list_create") {
        match msg.text("name") {
            Some(n) => changed_action(lists.create(n)),
            None => TodoAction::Nothing,
        }
    } else if text_eq(t, "todo_list_delete") {
        match msg.text("name") {
            Some(n) => changed_action(lists.delete(n.as_str())),
            None => TodoAction::Nothing,
        }
    } else if text_eq(t, "todo_list_rename") {
        match (msg.text("old"), msg.text("name")) {
            (Some(o), Some(n)) => changed_action(lists.rename(o.as_str(), n)),
            _ => TodoAction::Nothing,
        }
    } else if text_eq(t, "todo_move") {
        match (msg.unsigned("id"), msg.text("to")) {
            (Some(id), Some(to)) => changed_action(lists.move_to(list_name(msg).as_str(), id, to.as_str())),
            _ => TodoAction::Nothing,
        }
    } else {
        TodoAction::Nothing
    }
}

fn changed_action(changed: bool) -> (action: TodoAction)
    ensures
        action == (if changed { TodoAction::Persist } else { TodoAction::Nothing }),
{
    if changed { TodoAction::Persist } else { TodoAction::Nothing }
}


/// Pairs of a name and its tasks, as values.
pub open spec fn pair_entries(p: Seq<(String, Vec<String>)>) -> Seq<Entry> {
    p.map_values(|x: (String, Vec<String>)| (x.0@, texts(x.1@)))
}

/// The lists that inserting each pair in turn builds, later pairs replacing
/// earlier ones of the same name.
pub open spec fn inserted_all(p: Seq<Entry>) -> Seq<Entry>
    decreases p.len(),
{
    if p.len() == 0 {
        Seq::empty()
    } else {
        put_list(inserted_all(p.drop_last()), p.last().0, p.last().1)
    }
}

/// What `serde_json::from_str::<HashMap<String, Vec<String>>>` yields for a
/// text: the map from names to tasks, or `None` when the text is not such a
/// JSON object.
pub uninterp spec fn json_lists(text: Seq<char>) -> Option<Map<Seq<char>, Seq<Seq<char>>>>;

/// What `serde_json::from_str::<Vec<String>>` yields for a text: the strings,
/// or `None` when the text is not a JSON array of strings.
pub uninterp spec fn json_items(text: Seq<char>) -> Option<Seq<Seq<char>>>;

/// Calls `serde_json::from_str::<HashMap<String, Vec<String>>>` and hands the
/// map back as pairs. Claimed: the pairs exist exactly when the parse
/// succeeds, their names are distinct (they are a map's keys), and as a map
/// they are the parse result. Their order is the map's iteration order,
/// which is left unsaid.
#[verifier::external_body]
fn parse_json_lists(text: &str) -> (res: Option<Vec<(String, Vec<String>)>>)
    ensures
        res is Some == json_lists(text@) is Some,
        res matches Some(p) ==> unique_names(pair_entries(p@)) && lists_map(pair_entries(p@))
            == json_lists(text@)->0,
{
    serde_json::from_str::<HashMap<String, Vec<String>>>(text).ok().map(|m| m.into_iter().collect())
}

/// Calls `serde_json::from_str::<Vec<String>>`. Claimed: the result is the
/// parse result, `None` on a parse error.
#[verifier::external_body]
fn parse_json_items(text: &str) -> (res: Option<Vec<String>>)
    ensures
        res is Some == json_items(text@) is Some,
        res matches Some(v) ==> texts(v@) == json_items(text@)->0,
{
    serde_json::from_str::<Vec<String>>(text).ok()
}

proof fn lemma_inserted_unique(p: Seq<Entry>)
    requires
        unique_names(p),
    ensures
        inserted_all(p) == p,
    decreases p.len(),
{
    if p.len() > 0 {
        let q = p.drop_last();
        assert(unique_names(q));
        lemma_inserted_unique(q);
        assert(!has_list(q, p.last().0)) by {
            if has_list(q, p.last().0) {
                let i = choose|i: int| 0 <= i < q.len() && q[i].0 == p.last().0;
                assert(p[i].0 == p[p.len() - 1].0);
            }
        }
        assert(q.push(p.last()) =~= p);
    }
}

impl TodoLists {
    /// Lists built by inserting each pair in turn (a later pair replaces an
    /// earlier one of the same name).
    pub fn from_pairs(pairs: Vec<(String, Vec<String>)>) -> (res: TodoLists)
        ensures
            res.wf(),
            res@ == inserted_all(pair_entries(pairs@)),
    {
        let ghost all = pair_entries(pairs@);
        let mut res = TodoLists::new();
        let mut rest = pairs;
        assert(all.skip(0) =~= all);
        assert(all.take(0) =~= Seq::<Entry>::empty());
        while rest.len() > 0
            invariant
                res.wf(),
                rest@.len() <= all.len(),
                pair_entries(rest@) == all.skip(all.len() - rest@.len()),
                res@ == inserted_all(all.take(all.len() - rest@.len())),
            decreases rest.len(),
        {
            let ghost k = all.len() - rest@.len();
            let ghost before = rest@;
            let x = rest.remove(0);
            proof {
                assert(pair_entries(before)[0] == (x.0@, texts(x.1@)));
                assert(all[k] == (x.0@, texts(x.1@)));
                assert(all.take(k + 1).drop_last() =~= all.take(k));
                assert(rest@ =~= before.drop_first());
                assert forall|j: int| 0 <= j < rest@.len() implies pair_entries(rest@)[j] == all.skip(
                    k + 1,
                )[j] by {
                    assert(pair_entries(rest@)[j] == pair_entries(before)[j + 1]);
                    assert(pair_entries(before)[j + 1] == all.skip(k)[j + 1]);
                }
                assert(pair_entries(rest@) =~= all.skip(k + 1));
            }
            res.insert_list(x.0, x.1);
        }
        assert(all.take(all.len() as int) =~= all);
        res
    }
}

/// Calls `serde_json::to_string_pretty` on the pairs gathered into a
/// `HashMap<String, Vec<String>>`. Claimed: what it writes parses back, by
/// `serde_json::from_str` into the same map type, to that map (the pairs'
/// map when their names are distinct). Whether it fails is left unsaid.
#[verifier::external_body]
fn render_json_lists(pairs: &Vec<(String, Vec<String>)>) -> (res: Option<String>)
    ensures
        unique_names(pair_entries(pairs@)) ==> (res matches Some(t) ==> json_lists(t@) == Some(
            lists_map(pair_entries(pairs@)),
        )),
{
    serde_json::to_string_pretty(&pairs.iter().cloned().collect::<HashMap<String, Vec<String>>>()).ok()
}

fn clone_texts(v: &Vec<String>) -> (res: Vec<String>)
    ensures
        texts(res@) == texts(v@),
{
    let mut res: Vec<String> = Vec::new();
    let mut i: usize = 0;
    while i < v.len()
        invariant
            i <= v.len(),
            texts(res@) == texts(v@).take(i as int),
        decreases v.len() - i,
    {
        let ghost before = res@;
        let c = v[i].clone();
        assert(c@ == v@[i as int]@);
        res.push(c);
        assert(texts(res@) =~= texts(before).push(c@));
        assert(texts(res@) =~= texts(v@).take(i + 1));
        i = i + 1;
    }
    assert(texts(v@).take(i as int) =~= texts(v@));
    res
}

impl TodoLists {
    /// The lists as name and tasks pairs, in order.
    pub fn pairs(&self) -> (res: Vec<(String, Vec<String>)>)
        ensures
            pair_entries(res@) == self@,
    {
        let mut res: Vec<(String, Vec<String>)> = Vec::new();
        let mut i: usize = 0;
        while i < self.lists.len()
            invariant
                i <= self.lists.len(),
                self@.len() == self.lists.len(),
                pair_entries(res@) == self@.take(i as int),
            decreases self.lists.len() - i,
        {
            let ghost before = res@;
            let name = self.lists[i].name.clone();
            let items = clone_texts(&self.lists[i].items);
            assert((name@, texts(items@)) == self@[i as int]);
            res.push((name, items));
            assert(pair_entries(res@) =~= pair_entries(before).push(self@[i as int]));
            assert(pair_entries(res@) =~= self@.take(i + 1));
            i = i + 1;
        }
        assert(self@.take(i as int) =~= self@);
        res
    }

    /// The text the lists are stored as: a JSON object from names to tasks,
    /// which reads back as these lists. `None` when serialisation failed.
    pub fn to_json(&self) -> (res: Option<String>)
        requires
            self.wf(),
        ensures
            res matches Some(t) ==> json_lists(t@) == Some(lists_map(self@)),
    {
        let pairs = self.pairs();
        render_json_lists(&pairs)
    }
}

/// A map of lists with a `"default"` list added when it lacks one.
pub open spec fn with_default(m: Map<Seq<char>, Seq<Seq<char>>>) -> Map<Seq<char>, Seq<Seq<char>>> {
    if m.dom().contains(default_name()) {
        m
    } else {
        m.insert(default_name(), Seq::empty())
    }
}

/// The lists restored from the store, and whether they must be written back.
/// `None` means the store could not be read; otherwise its text is read as a
/// JSON object of lists, else as a JSON array of tasks (an older layout, which
/// becomes the `"default"` list). An unreadable store, text that is neither,
/// or an object without a `"default"` list gets an empty `"default"` list.
/// Only when the store could not be read is the result written back.
pub open spec fn restored(stored: Option<Seq<char>>, e: Seq<Entry>, store: bool) -> bool {
    match stored {
        None => e == seq![(default_name(), Seq::<Seq<char>>::empty())] && store,
        Some(t) => match json_lists(t) {
            Some(m) => lists_map(e) == with_default(m) && !store,
            None => match json_items(t) {
                Some(items) => e == seq![(default_name(), items)] && !store,
                None => e == seq![(default_name(), Seq::<Seq<char>>::empty())] && !store,
            },
        },
    }
}

/// One empty `"default"` list.
fn default_only() -> (res: TodoLists)
    ensures
        res.wf(),
        res@ == seq![(default_name(), Seq::<Seq<char>>::empty())],
{
    let mut lists = TodoLists::new();
    let items: Vec<String> = Vec::new();
    assert(texts(items@) =~= Seq::<Seq<char>>::empty());
    lists.push_list("default".to_owned(), items);
    assert(lists@ =~= seq![(default_name(), Seq::<Seq<char>>::empty())]);
    lists
}

/// Rebuilds the lists from what the store held, and says whether they must be stored.
pub fn restore_todos(stored: Option<&str>) -> (res: (TodoLists, bool))
    ensures
        res.0.wf(),
        has_list(res.0@, default_name()),
        restored(
            match stored {
                Some(t) => Some(t@),
                None => None,
            },
            res.0@,
            res.1,
        ),
{
    match stored {
        None => {
            let lists = default_only();
            assert(lists@[0].0 == default_name());
            (lists, true)
        },
        Some(text) => {
            match parse_json_lists(text) {
                Some(pairs) => {
                    let ghost p = pair_entries(pairs@);
                    let mut lists = TodoLists::from_pairs(pairs);
                    proof {
                        lemma_inserted_unique(p);
                    }
                    let ghost m = lists_map(lists@);
                    if lists.contains("default") {
                        assert(m.dom().contains(default_name()));
                        (lists, false)
                    } else {
                        let ghost before = lists@;
                        let items: Vec<String> = Vec::new();
                        assert(texts(items@) =~= Seq::<Seq<char>>::empty());
                        lists.insert_list("default".to_owned(), items);
                        proof {
                            lemma_put_list(before, default_name(), Seq::empty());
                            assert(!m.dom().contains(default_name()));
                            assert(lists_map(lists@) =~= m.insert(default_name(), Seq::empty()));
                        }
                        (lists, false)
                    }
                },
                None => match parse_json_items(text) {
                    Some(items) => {
                        let mut lists = TodoLists::new();
                        let ghost t = texts(items@);
                        lists.push_list("default".to_owned(), items);
                        assert(lists@ =~= seq![(default_name(), t)]);
                        assert(lists@[0].0 == default_name());
                        (lists, false)
                    },
                    None => {
                        let lists = default_only();
                        assert(lists@[0].0 == default_name());
                        (lists, false)
                    },
                },
            }
        },
    }
}

// ---- facts about the list operations ----

proof fn lemma_total_update(e: Seq<Entry>, i: int, x: Entry)
    requires
        0 <= i < e.len(),
    ensures
        total_items(e.update(i, x)) == total_items(e) - e[i].1.len() + x.1.len(),
    decreases e.len(),
{
    if i == e.len() - 1 {
        assert(e.update(i, x).drop_last() =~= e.drop_last());
    } else {
        lemma_total_update(e.drop_last(), i, x);
        assert(e.update(i, x).drop_last() =~= e.drop_last().update(i, x));
    }
}

proof fn lemma_total_push(e: Seq<Entry>, x: Entry)
    ensures
        total_items(e.push(x)) == total_items(e) + x.1.len(),
{
    assert(e.push(x).drop_last() =~= e);
}

proof fn lemma_total_remove(e: Seq<Entry>, i: int)
    requires
        0 <= i < e.len(),
    ensures
        total_items(e.remove(i)) == total_items(e) - e[i].1.len(),
    decreases e.len(),
{
    if i == e.len() - 1 {
        assert(e.remove(i) =~= e.drop_last());
    } else {
        lemma_total_remove(e.drop_last(), i);
        assert(e.remove(i).drop_last() =~= e.drop_last().remove(i));
        assert(e.remove(i).last() == e.last());
    }
}

/// Inserting a list under `name`: names stay unique, the list holds `items`,
/// every other list is untouched, and the task count moves by the difference.
pub proof fn lemma_put_list(e: Seq<Entry>, name: Seq<char>, items: Seq<Seq<char>>)
    requires
        unique_names(e),
    ensures
        unique_names(put_list(e, name, items)),
        has_list(put_list(e, name, items), name),
        items_of(put_list(e, name, items), name) == items,
        put_list(e, name, items).len() == e.len() + (if has_list(e, name) { 0int } else { 1int }),
        total_items(put_list(e, name, items)) == total_items(e) - items_or_empty(e, name).len()
            + items.len(),
        forall|k: Seq<char>|
            k != name ==> (has_list(put_list(e, name, items), k) == has_list(e, k) && (has_list(e, k)
                ==> items_of(put_list(e, name, items), k) == items_of(e, k))),
{
    let f = put_list(e, name, items);
    if has_list(e, name) {
        let i = list_index(e, name);
        lemma_update_keeps_unique(e, i, items);
        assert(f[i].0 == name);
        lemma_index_unique(f, name, i);
        lemma_total_update(e, i, (name, items));
        assert forall|k: Seq<char>| k != name implies (has_list(f, k) == has_list(e, k) && (has_list(e, k)
            ==> items_of(f, k) == items_of(e, k))) by {
            if has_list(e, k) {
                let j = list_index(e, k);
                assert(f[j] == e[j]);
                lemma_index_unique(f, k, j);
            }
            if has_list(f, k) {
                let j = list_index(f, k);
                assert(f[j] == e[j]);
            }
        }
    } else {
        lemma_push_keeps_unique(e, name, items);
        lemma_total_push(e, (name, items));
        assert forall|k: Seq<char>| k != name implies (has_list(f, k) == has_list(e, k) && (has_list(e, k)
            ==> items_of(f, k) == items_of(e, k))) by {
            if has_list(e, k) {
                let j = list_index(e, k);
                assert(f[j] == e[j]);
                lemma_index_unique(f, k, j);
            }
            if has_list(f, k) {
                let j = list_index(f, k);
                assert(f[j] == e[j]);
            }
        }
    }
}

/// Removing the list called `name`: names stay unique, that list is gone,
/// every other list is untouched, and its tasks leave the count.
pub proof fn lemma_drop_list(e: Seq<Entry>, name: Seq<char>)
    requires
        unique_names(e),
    ensures
        unique_names(drop_list(e, name)),
        !has_list(drop_list(e, name), name),
        drop_list(e, name).len() == e.len() - (if has_list(e, name) { 1int } else { 0int }),
        total_items(drop_list(e, name)) == total_items(e) - items_or_empty(e, name).len(),
        forall|k: Seq<char>|
            k != name ==> (has_list(drop_list(e, name), k) == has_list(e, k) && (has_list(e, k)
                ==> items_of(drop_list(e, name), k) == items_of(e, k))),
{
    let f = drop_list(e, name);
    if has_list(e, name) {
        let i = list_index(e, name);
        lemma_remove_keeps_unique(e, i);
        lemma_total_remove(e, i);
        if has_list(f, name) {
            let j = list_index(f, name);
            let j2 = if j < i { j } else { j + 1 };
            assert(e[j2] == f[j]);
        }
        assert forall|k: Seq<char>| k != name implies (has_list(f, k) == has_list(e, k) && (has_list(e, k)
            ==> items_of(f, k) == items_of(e, k))) by {
            if has_list(e, k) {
                let j = list_index(e, k);
                assert(j != i);
                let j2 = if j < i { j } else { j - 1 };
                assert(f[j2] == e[j]);
                lemma_index_unique(f, k, j2);
            }
            if has_list(f, k) {
                let j = list_index(f, k);
                let j2 = if j < i { j } else { j + 1 };
                assert(e[j2] == f[j]);
            }
        }
    } else {
    }
}


impl TodoLists {
    /// How many lists there are.
    pub fn len(&self) -> (res: usize)
        ensures
            res == self@.len(),
    {
        self.lists.len()
    }

    /// Whether a list is called `name`.
    pub fn contains(&self, name: &str) -> (res: bool)
        requires
            self.wf(),
        ensures
            res == has_list(self@, name@),
    {
        self.position(name).is_some()
    }

    /// The tasks of the list called `name`, if there is one.
    pub fn get(&self, name: &str) -> (res: Option<&Vec<String>>)
        requires
            self.wf(),
        ensures
            match res {
                Some(items) => has_list(self@, name@) && texts(items@) == items_of(self@, name@),
                None => !has_list(self@, name@),
            },
    {
        match self.position(name) {
            Some(i) => Some(&self.lists[i].items),
            None => None,
        }
    }
}

} // verus!
