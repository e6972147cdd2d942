//! Properties that hold across messages and calls: what the services promise
//! of every input, proved over the same spec functions their contracts use.
use vstd::prelude::*;
use crate::message::{message_type, text_field, unsigned_field, Message};
use crate::sync::{
    direction_text, endpoint_location, first_named, has_target, preview_plan_spec, saved_targets,
    sync_start_spec, without_target, Direction, PreviewPlan, SyncStart, SyncTarget,
};
use crate::todo::{
    add_item, create_list, delete_list, edit_item, has_list, items_of, items_or_empty,
    lemma_drop_list, lemma_put_list, move_item, remove_item, rename_list, reorder_item,
    todo_step, total_items, unique_names, default_name, Entry, TodoAction, json_lists, lists_map,
    restored, with_default,
};

verus! {

broadcast use vstd::seq_lib::group_to_multiset_ensures;

// ---- todo lists ----

/// Every todo message keeps list names unique.
pub proof fn law_todo_names_stay_unique(e: Seq<Entry>, m: Message)
    requires
        unique_names(e),
    ensures
        unique_names(todo_step(e, m).0),
{
    lemma_ops_shape(e, m);
}

/// The lists as a whole are never emptied by a message: the last list cannot
/// be deleted, and renaming or moving never loses a list.
pub proof fn law_last_list_survives(e: Seq<Entry>, m: Message)
    requires
        unique_names(e),
        e.len() > 0,
    ensures
        todo_step(e, m).0.len() > 0,
{
    lemma_ops_shape(e, m);
}

/// A `"default"` list always exists: no message removes it.
pub proof fn law_default_list_kept(e: Seq<Entry>, m: Message)
    requires
        unique_names(e),
        has_list(e, default_name()),
    ensures
        has_list(todo_step(e, m).0, default_name()),
{
    lemma_ops_shape(e, m);
}

proof fn lemma_ops_shape(e: Seq<Entry>, m: Message)
    requires
        unique_names(e),
    ensures
        unique_names(todo_step(e, m).0),
        e.len() > 0 ==> todo_step(e, m).0.len() > 0,
        has_list(e, default_name()) ==> has_list(todo_step(e, m).0, default_name()),
{
    let list = crate::todo::list_name_of(m);
    match crate::message::message_type(m) {
        Some(t) => {
            if t == "todo_add"@ {
                if let Some(x) = crate::message::text_field(m, "text"@) {
                    lemma_put_list(e, list, items_or_empty(e, list).push(x));
                }
            } else if t == "todo_remove"@ {
                if let Some(id) = crate::message::unsigned_field(m, "id"@) {
                    if has_list(e, list) && (id as usize) < items_of(e, list).len() {
                        lemma_put_list(e, list, items_of(e, list).remove((id as usize) as int));
                    }
                }
            } else if t == "todo_reorder"@ {
                if let (Some(from), Some(to)) = (
                    crate::message::unsigned_field(m, "from"@),
                    crate::message::unsigned_field(m, "to"@),
                ) {
                    if has_list(e, list) && from < items_of(e, list).len() && to < items_of(e, list).len() {
                        let items = items_of(e, list);
                        lemma_put_list(e, list, items.remove(from as int).insert(to as int, items[from as int]));
                    }
                }
            } else if t == "todo_edit"@ {
                if let (Some(id), Some(x)) = (
                    crate::message::unsigned_field(m, "id"@),
                    crate::message::text_field(m, "text"@),
                ) {
                    if has_list(e, list) && (id as usize) < items_of(e, list).len() {
                        lemma_put_list(e, list, items_of(e, list).update((id as usize) as int, x));
                    }
                }
            } else if t == "todo_list_create"@ {
                if let Some(n) = crate::message::text_field(m, "name"@) {
                    if !has_list(e, n) {
                        lemma_put_list(e, n, Seq::empty());
                    }
                }
            } else if t == "todo_list_delete"@ {
                if let Some(n) = crate::message::text_field(m, "name"@) {
                    lemma_drop_list(e, n);
                }
            } else if t == "todo_list_rename"@ {
                if let (Some(o), Some(n)) = (
                    crate::message::text_field(m, "old"@),
                    crate::message::text_field(m, "name"@),
                ) {
                    if has_list(e, o) {
                        lemma_drop_list(e, o);
                        lemma_put_list(crate::todo::drop_list(e, o), n, items_of(e, o));
                    }
                }
            } else if t == "todo_move"@ {
                if let (Some(id), Some(to)) = (
                    crate::message::unsigned_field(m, "id"@),
                    crate::message::text_field(m, "to"@),
                ) {
                    lemma_move(e, list, id, to);
                }
            }
        },
        None => {},
    }
}

proof fn lemma_move(e: Seq<Entry>, from: Seq<char>, id: u64, to: Seq<char>)
    requires
        unique_names(e),
    ensures
        move_item(e, from, id, to) matches Some(f) ==> {
            &&& unique_names(f)
            &&& f.len() == e.len()
            &&& total_items(f) == total_items(e)
            &&& items_of(f, from) == items_of(e, from).remove((id as usize) as int)
            &&& items_of(f, to) == items_of(e, to).push(items_of(e, from)[(id as usize) as int])
            &&& forall|k: Seq<char>| has_list(e, k) ==> has_list(f, k)
        },
{
    if move_item(e, from, id, to) is Some {
        let k = (id as usize) as int;
        let item = items_of(e, from)[k];
        let e1 = crate::todo::put_list(e, from, items_of(e, from).remove(k));
        lemma_put_list(e, from, items_of(e, from).remove(k));
        lemma_put_list(e1, to, items_of(e1, to).push(item));
    }
}

/// What is not persisted did not change: a message either leaves the lists
/// as they were, or they are stored and sent to every client.
pub proof fn law_changes_are_persisted(e: Seq<Entry>, m: Message)
    ensures
        todo_step(e, m).1 != TodoAction::Persist ==> todo_step(e, m).0 == e,
{
}

/// `todo_add` appends the task to its list (creating the list) and adds one task.
pub proof fn law_add_appends(e: Seq<Entry>, list: Seq<char>, text: Seq<char>)
    requires
        unique_names(e),
    ensures
        has_list(add_item(e, list, text), list),
        items_of(add_item(e, list, text), list) == items_or_empty(e, list).push(text),
        total_items(add_item(e, list, text)) == total_items(e) + 1,
{
    lemma_put_list(e, list, items_or_empty(e, list).push(text));
}

/// Index-based operations check bounds: an index past the end of the list,
/// or a list that does not exist, changes nothing.
pub proof fn law_bounds_checked(
    e: Seq<Entry>,
    list: Seq<char>,
    id: u64,
    text: Seq<char>,
    dest: Seq<char>,
)
    requires
        !has_list(e, list) || items_of(e, list).len() <= id as usize,
    ensures
        remove_item(e, list, id) is None,
        edit_item(e, list, id, text) is None,
        move_item(e, list, id, dest) is None,
{
}

/// A reorder with either position past the end of the list changes nothing.
pub proof fn law_reorder_bounds_checked(e: Seq<Entry>, list: Seq<char>, from: u64, to: u64)
    requires
        !has_list(e, list) || items_of(e, list).len() <= from || items_of(e, list).len() <= to,
    ensures
        reorder_item(e, list, from, to) is None,
{
}

/// `todo_remove` takes away exactly the task at `id`.
pub proof fn law_remove_takes_one(e: Seq<Entry>, list: Seq<char>, id: u64)
    requires
        unique_names(e),
        remove_item(e, list, id) is Some,
    ensures
        items_of(remove_item(e, list, id)->0, list) == items_of(e, list).remove((id as usize) as int),
        total_items(remove_item(e, list, id)->0) == total_items(e) - 1,
{
    lemma_put_list(e, list, items_of(e, list).remove((id as usize) as int));
}

/// `todo_reorder` keeps the same tasks, with the moved one now at `to`.
pub proof fn law_reorder_permutes(e: Seq<Entry>, list: Seq<char>, from: u64, to: u64)
    requires
        unique_names(e),
        reorder_item(e, list, from, to) is Some,
    ensures
        items_of(reorder_item(e, list, from, to)->0, list).to_multiset() == items_of(e, list).to_multiset(),
        items_of(reorder_item(e, list, from, to)->0, list)[to as int] == items_of(e, list)[from as int],
        total_items(reorder_item(e, list, from, to)->0) == total_items(e),
{
    let items = items_of(e, list);
    let x = items[from as int];
    let r = items.remove(from as int);
    let q = r.insert(to as int, x);
    lemma_put_list(e, list, q);
    assert(q.remove(to as int) =~= r);
    assert(q[to as int] == x);
    assert(q.remove(to as int).to_multiset() =~= q.to_multiset().remove(x));
    assert(r.to_multiset() =~= items.to_multiset().remove(x));
    assert(q.to_multiset().count(x) > 0) by {
        assert(q.contains(x));
    }
    assert(items.to_multiset().count(x) > 0) by {
        assert(items.contains(x));
    }
    assert(q.to_multiset() =~= items.to_multiset());
}

/// `todo_edit` changes only the task at `id`.
pub proof fn law_edit_replaces_one(e: Seq<Entry>, list: Seq<char>, id: u64, text: Seq<char>)
    requires
        unique_names(e),
        edit_item(e, list, id, text) is Some,
    ensures
        items_of(edit_item(e, list, id, text)->0, list) == items_of(e, list).update(
            (id as usize) as int,
            text,
        ),
        forall|k: Seq<char>|
            k != list ==> has_list(edit_item(e, list, id, text)->0, k) == has_list(e, k),
{
    lemma_put_list(e, list, items_of(e, list).update((id as usize) as int, text));
}

/// `todo_move` carries one task from one list to the end of another; the
/// number of tasks stays the same.
pub proof fn law_move_keeps_count(e: Seq<Entry>, from: Seq<char>, id: u64, to: Seq<char>)
    requires
        unique_names(e),
        move_item(e, from, id, to) is Some,
    ensures
        total_items(move_item(e, from, id, to)->0) == total_items(e),
        items_of(move_item(e, from, id, to)->0, from) == items_of(e, from).remove((id as usize) as int),
        items_of(move_item(e, from, id, to)->0, to) == items_of(e, to).push(
            items_of(e, from)[(id as usize) as int],
        ),
{
    lemma_move(e, from, id, to);
}

/// `todo_edit` succeeds for every index inside an existing list: the task at
/// `id` now reads `text`, every other task and every other list is as it was.
pub proof fn law_edit_in_range_succeeds(e: Seq<Entry>, list: Seq<char>, id: u64, text: Seq<char>)
    requires
        unique_names(e),
        has_list(e, list),
        (id as usize) < items_of(e, list).len(),
    ensures
        edit_item(e, list, id, text) matches Some(f) && {
            let k = (id as usize) as int;
            &&& has_list(f, list)
            &&& items_of(f, list).len() == items_of(e, list).len()
            &&& items_of(f, list)[k] == text
            &&& forall|j: int| 0 <= j < items_of(e, list).len() && j != k
                ==> #[trigger] items_of(f, list)[j] == items_of(e, list)[j]
            &&& forall|other: Seq<char>| other != list ==> has_list(f, other) == has_list(e, other)
                && (has_list(e, other) ==> items_of(f, other) == items_of(e, other))
        },
{
    lemma_put_list(e, list, items_of(e, list).update((id as usize) as int, text));
}

/// A `todo_edit` message with an index inside its list changes that task and
/// is persisted and sent to every client.
pub proof fn law_edit_message_persists(e: Seq<Entry>, m: Message, id: u64, text: Seq<char>)
    requires
        unique_names(e),
        message_type(m) == Some("todo_edit"@),
        unsigned_field(m, "id"@) == Some(id),
        text_field(m, "text"@) == Some(text),
        has_list(e, crate::todo::list_name_of(m)),
        (id as usize) < items_of(e, crate::todo::list_name_of(m)).len(),
    ensures
        todo_step(e, m).1 == TodoAction::Persist,
        items_of(todo_step(e, m).0, crate::todo::list_name_of(m))[(id as usize) as int] == text,
{
    reveal_strlit("todo_list");
    reveal_strlit("todo_add");
    reveal_strlit("todo_remove");
    reveal_strlit("todo_reorder");
    reveal_strlit("todo_edit");
    assert("todo_edit"@[5] != "todo_list"@[5]);
    law_edit_in_range_succeeds(e, crate::todo::list_name_of(m), id, text);
}

/// `todo_remove` succeeds for every index inside an existing list.
pub proof fn law_remove_in_range_succeeds(e: Seq<Entry>, list: Seq<char>, id: u64)
    requires
        unique_names(e),
        has_list(e, list),
        (id as usize) < items_of(e, list).len(),
    ensures
        remove_item(e, list, id) matches Some(f)
            && items_of(f, list) == items_of(e, list).remove((id as usize) as int)
            && total_items(f) + 1 == total_items(e),
{
    lemma_put_list(e, list, items_of(e, list).remove((id as usize) as int));
}

/// `todo_reorder` succeeds whenever both positions lie inside an existing list.
pub proof fn law_reorder_in_range_succeeds(e: Seq<Entry>, list: Seq<char>, from: u64, to: u64)
    requires
        unique_names(e),
        has_list(e, list),
        from < items_of(e, list).len(),
        to < items_of(e, list).len(),
    ensures
        reorder_item(e, list, from, to) matches Some(f)
            && items_of(f, list)[to as int] == items_of(e, list)[from as int]
            && items_of(f, list).len() == items_of(e, list).len(),
{
    let items = items_of(e, list);
    lemma_put_list(e, list, items.remove(from as int).insert(to as int, items[from as int]));
}

/// `todo_move` succeeds for every index inside `from` when `to` is another
/// existing list: the task leaves `from` and is the new last task of `to`.
pub proof fn law_move_in_range_succeeds(e: Seq<Entry>, from: Seq<char>, id: u64, to: Seq<char>)
    requires
        unique_names(e),
        from != to,
        has_list(e, from),
        has_list(e, to),
        (id as usize) < items_of(e, from).len(),
    ensures
        move_item(e, from, id, to) matches Some(f) && {
            let k = (id as usize) as int;
            &&& items_of(f, from) == items_of(e, from).remove(k)
            &&& items_of(f, to).len() == items_of(e, to).len() + 1
            &&& items_of(f, to).last() == items_of(e, from)[k]
            &&& items_of(f, to).drop_last() == items_of(e, to)
            &&& total_items(f) == total_items(e)
        },
{
    lemma_move(e, from, id, to);
    let k = (id as usize) as int;
    assert(items_of(e, to).push(items_of(e, from)[k]).drop_last() =~= items_of(e, to));
}

/// A `todo_move` message with an index inside its list, naming another
/// existing list, moves the task and is persisted and sent to every client.
pub proof fn law_move_message_persists(e: Seq<Entry>, m: Message, id: u64, to: Seq<char>)
    requires
        unique_names(e),
        message_type(m) == Some("todo_move"@),
        unsigned_field(m, "id"@) == Some(id),
        text_field(m, "to"@) == Some(to),
        to != crate::todo::list_name_of(m),
        has_list(e, crate::todo::list_name_of(m)),
        has_list(e, to),
        (id as usize) < items_of(e, crate::todo::list_name_of(m)).len(),
    ensures
        todo_step(e, m).1 == TodoAction::Persist,
        items_of(todo_step(e, m).0, to).last()
            == items_of(e, crate::todo::list_name_of(m))[(id as usize) as int],
{
    reveal_strlit("todo_list");
    reveal_strlit("todo_add");
    reveal_strlit("todo_remove");
    reveal_strlit("todo_reorder");
    reveal_strlit("todo_edit");
    reveal_strlit("todo_list_create");
    reveal_strlit("todo_list_delete");
    reveal_strlit("todo_list_rename");
    reveal_strlit("todo_move");
    assert("todo_move"@[5] != "todo_list"@[5]);
    assert("todo_move"@[5] != "todo_edit"@[5]);
    law_move_in_range_succeeds(e, crate::todo::list_name_of(m), id, to);
}

/// `todo_list_create` makes an empty list; an existing name is left alone.
pub proof fn law_create_adds_empty(e: Seq<Entry>, name: Seq<char>)
    requires
        unique_names(e),
    ensures
        create_list(e, name) matches Some(f) ==> has_list(f, name) && items_of(f, name) == Seq::<
            Seq<char>,
        >::empty() && total_items(f) == total_items(e),
        has_list(e, name) ==> create_list(e, name) is None,
{
    if !has_list(e, name) {
        lemma_put_list(e, name, Seq::empty());
    }
}

/// `todo_list_delete` removes the list, and is refused while it would leave
/// no list, and for the `"default"` list.
pub proof fn law_delete_removes(e: Seq<Entry>, name: Seq<char>)
    requires
        unique_names(e),
    ensures
        e.len() <= 1 ==> delete_list(e, name) is None,
        name == default_name() ==> delete_list(e, name) is None,
        delete_list(e, name) matches Some(f) ==> !has_list(f, name) && f.len() >= 1,
{
    lemma_drop_list(e, name);
}

/// `todo_list_rename` keeps the tasks under the new name; the old name is
/// gone. The `"default"` list cannot be renamed away.
pub proof fn law_rename_keeps_tasks(e: Seq<Entry>, old: Seq<char>, new: Seq<char>)
    requires
        unique_names(e),
        has_list(e, old),
    ensures
        old == default_name() && new != default_name() ==> rename_list(e, old, new) is None,
        old != default_name() || new == default_name() ==> {
            &&& rename_list(e, old, new) matches Some(f)
            &&& has_list(f, new)
            &&& items_of(f, new) == items_of(e, old)
            &&& (old != new ==> !has_list(f, old))
        },
{
    lemma_drop_list(e, old);
    lemma_put_list(crate::todo::drop_list(e, old), new, items_of(e, old));
}

/// What is stored is what loads back: text that parses to the lists' map
/// (as `TodoLists::to_json` writes) restores those lists (with a `"default"`
/// list added if they had none) and is not written again.
pub proof fn law_store_round_trip(e: Seq<Entry>, text: Seq<char>, restored_lists: Seq<Entry>, store: bool)
    requires
        json_lists(text) == Some(lists_map(e)),
        restored(Some(text), restored_lists, store),
    ensures
        lists_map(restored_lists) == with_default(lists_map(e)),
        has_list(e, default_name()) ==> lists_map(restored_lists) == lists_map(e),
        !store,
{
}

// ---- sync targets ----

/// A started push or pull runs in the direction its type asks for: a pull
/// copies the remote endpoint onto the local one, a push the local onto the
/// remote, and the reports name that direction.
pub proof fn law_sync_runs_requested_direction(
    msg: Message,
    targets: Seq<SyncTarget>,
    before: Set<Seq<char>>,
    after: Set<Seq<char>>,
    res: SyncStart,
    t: Seq<char>,
    name: Seq<char>,
)
    requires
        sync_start_spec(msg, targets, before, after, res),
        message_type(msg) == Some(t),
        t == "sync_pull"@ || t == "sync_push"@,
        text_field(msg, "name"@) == Some(name),
        has_target(targets, name),
        !before.contains(name),
    ensures
        res matches SyncStart::Started { direction, target } && {
            &&& target.name@ == name
            &&& t == "sync_pull"@ ==> {
                &&& direction == Direction::Pull
                &&& direction_text(direction) == "pull"@
                &&& crate::sync::sync_route(target, direction) == (
                    endpoint_location(target.remote),
                    endpoint_location(target.local),
                )
            }
            &&& t == "sync_push"@ ==> {
                &&& direction == Direction::Push
                &&& direction_text(direction) == "push"@
                &&& crate::sync::sync_route(target, direction) == (
                    endpoint_location(target.local),
                    endpoint_location(target.remote),
                )
            }
        },
{
    reveal_strlit("sync_pull");
    reveal_strlit("sync_push");
    assert("sync_pull"@[7] != "sync_push"@[7]);
    crate::sync::lemma_first_exists(targets, name);
}

/// A dry run previews the direction asked for: `sync_push_preview` plans
/// local to remote, any other preview remote to local, for the first target
/// of the requested name.
pub proof fn law_preview_runs_requested_direction(
    msg: Message,
    targets: Seq<SyncTarget>,
    res: Option<PreviewPlan>,
    name: Seq<char>,
)
    requires
        preview_plan_spec(msg, targets, res),
        text_field(msg, "name"@) == Some(name),
        has_target(targets, name),
    ensures
        res matches Some(p) && {
            let target = targets[first_named(targets, name)];
            &&& p.name@ == name
            &&& target.name@ == name
            &&& message_type(msg) == Some("sync_push_preview"@) ==> {
                &&& p.direction == Direction::Push
                &&& p.source@ == endpoint_location(target.local)
                &&& p.destination@ == endpoint_location(target.remote)
            }
            &&& message_type(msg) != Some("sync_push_preview"@) ==> {
                &&& p.direction == Direction::Pull
                &&& p.source@ == endpoint_location(target.remote)
                &&& p.destination@ == endpoint_location(target.local)
            }
        },
{
    crate::sync::lemma_first_exists(targets, name);
}

/// One sync per target: once a request started a sync, the same request is
/// refused until that sync finishes, and nothing else changes.
pub proof fn law_one_sync_per_target(
    msg: Message,
    targets: Seq<SyncTarget>,
    s0: Set<Seq<char>>,
    s1: Set<Seq<char>>,
    s2: Set<Seq<char>>,
    first: SyncStart,
    second: SyncStart,
)
    requires
        sync_start_spec(msg, targets, s0, s1, first),
        sync_start_spec(msg, targets, s1, s2, second),
        first is Started,
    ensures
        second is AlreadyRunning,
        s2 == s1,
{
}

/// Different targets sync side by side: a request for a target that is not
/// syncing starts even while others are, and they keep running.
pub proof fn law_targets_sync_independently(
    msg: Message,
    targets: Seq<SyncTarget>,
    before: Set<Seq<char>>,
    after: Set<Seq<char>>,
    res: SyncStart,
    name: Seq<char>,
)
    requires
        sync_start_spec(msg, targets, before, after, res),
        crate::sync::requested_direction(crate::message::message_type(msg)) is Some,
        crate::message::text_field(msg, "name"@) == Some(name),
        has_target(targets, name),
        !before.contains(name),
    ensures
        res is Started,
        after == before.insert(name),
        forall|other: Seq<char>| before.contains(other) ==> after.contains(other),
{
}

/// Finishing a sync frees its target: the same request then starts again.
pub proof fn law_finish_frees_target(
    msg: Message,
    targets: Seq<SyncTarget>,
    s0: Set<Seq<char>>,
    s1: Set<Seq<char>>,
    s2: Set<Seq<char>>,
    first: SyncStart,
    again: SyncStart,
    name: Seq<char>,
)
    requires
        sync_start_spec(msg, targets, s0, s1, first),
        first is Started,
        crate::message::text_field(msg, "name"@) == Some(name),
        sync_start_spec(msg, targets, s1.remove(name), s2, again),
    ensures
        again is Started,
{
}

/// Reading a saved target back gives the saved target; saving it twice is
/// the same as saving it once.
pub proof fn law_save_then_find(s: Seq<SyncTarget>, t: SyncTarget)
    ensures
        has_target(saved_targets(s, t), t.name@),
        saved_targets(s, t)[first_named(saved_targets(s, t), t.name@)] == t,
        saved_targets(saved_targets(s, t), t) == saved_targets(s, t),
{
    let f = saved_targets(s, t);
    if has_target(s, t.name@) {
        let i = first_named(s, t.name@);
        crate::sync::lemma_first_exists(s, t.name@);
        assert(crate::sync::is_first_named(f, t.name@, i));
        crate::sync::lemma_first_named(f, t.name@, i);
        assert(f.update(i, t) =~= f);
    } else {
        let i = s.len() as int;
        assert forall|j: int| 0 <= j < i implies f[j].name@ != t.name@ by {
            assert(f[j] == s[j]);
        }
        assert(crate::sync::is_first_named(f, t.name@, i));
        crate::sync::lemma_first_named(f, t.name@, i);
        assert(f.update(i, t) =~= f);
    }
}

/// Deleting a target leaves none of that name and keeps every other target.
pub proof fn law_delete_target(s: Seq<SyncTarget>, name: Seq<char>, t: SyncTarget)
    ensures
        !has_target(without_target(s, name), name),
        s.contains(t) && t.name@ != name ==> without_target(s, name).contains(t),
    decreases s.len(),
{
    if s.len() > 0 {
        law_delete_target(s.drop_last(), name, t);
        let r = without_target(s.drop_last(), name);
        if s.last().name@ != name {
            assert(r.push(s.last()).last() == s.last());
            if has_target(r.push(s.last()), name) {
                let i = choose|i: int| 0 <= i < r.push(s.last()).len() && r.push(s.last())[i].name@ == name;
                assert(r.push(s.last())[i] == r[i]);
            }
            if s.contains(t) && t.name@ != name {
                let k = choose|k: int| 0 <= k < s.len() && s[k] == t;
                if k < s.len() - 1 {
                    assert(s.drop_last()[k] == t);
                    let j = choose|j: int| 0 <= j < r.len() && r[j] == t;
                    assert(r.push(s.last())[j] == t);
                } else {
                    assert(r.push(s.last())[r.len() as int] == t);
                }
            }
        } else {
            if s.contains(t) && t.name@ != name {
                let k = choose|k: int| 0 <= k < s.len() && s[k] == t;
                assert(k != s.len() - 1);
                assert(s.drop_last()[k] == t);
            }
        }
    }
}

} // verus!
