//! The state of a to-do list: items, the title being typed, and which items to show.
#![allow(non_snake_case)]

use vstd::prelude::*;
use crate::utils::uniqId;

verus! {

/// An item: id, title, done.
pub type ToDo = (usize, String, bool);

/// Shows all items.
pub const SHOW_ALL: usize = 0;
/// Shows the items still to do.
pub const SHOW_ACTIVE: usize = 1;
/// Shows the items done.
pub const SHOW_COMPLETED: usize = 2;

pub struct MainViewModel {
    pub newTitle: String,
    pub items: Vec<ToDo>,
    pub showAll: usize,
    /// The id the next created item gets.
    pub nextId: usize,
}

/// The items that the filter `show` lets through, in order.
pub open spec fn visible(items: Seq<ToDo>, show: usize) -> Seq<ToDo>
    decreases items.len(),
{
    if items.len() == 0 {
        Seq::empty()
    } else {
        let rest = visible(items.drop_last(), show);
        let it = items.last();
        if show == SHOW_ALL || (show == SHOW_ACTIVE && !it.2) || (show == SHOW_COMPLETED && it.2) {
            rest.push(it)
        } else {
            rest
        }
    }
}

/// The number of items done.
pub open spec fn completed_count(items: Seq<ToDo>) -> nat
    decreases items.len(),
{
    if items.len() == 0 {
        0
    } else {
        completed_count(items.drop_last()) + if items.last().2 {
            1nat
        } else {
            0nat
        }
    }
}

/// Some item has id `id`.
pub open spec fn has_id(items: Seq<ToDo>, id: usize) -> bool {
    exists|i: int| 0 <= i < items.len() && (#[trigger] items[i]).0 == id
}

/// The position of the first item with id `id`.
pub open spec fn first_with_id(items: Seq<ToDo>, id: usize) -> int
    recommends
        has_id(items, id),
{
    choose|i: int|
        0 <= i < items.len() && (#[trigger] items[i]).0 == id && forall|j: int| 0 <= j < i ==> items[j].0 != id
}

/// The items after removing the first one with id `id`, if any.
pub open spec fn removed(items: Seq<ToDo>, id: usize) -> Seq<ToDo> {
    if has_id(items, id) {
        items.remove(first_with_id(items, id))
    } else {
        items
    }
}

/// The items after giving the first one with id `id`, if any, a new title and state.
pub open spec fn updated_item(items: Seq<ToDo>, t: ToDo) -> Seq<ToDo> {
    if has_id(items, t.0) {
        items.update(first_with_id(items, t.0), t)
    } else {
        items
    }
}

/// The items still to do, in order.
pub open spec fn active(items: Seq<ToDo>) -> Seq<ToDo>
    decreases items.len(),
{
    if items.len() == 0 {
        Seq::empty()
    } else if items.last().2 {
        active(items.drop_last())
    } else {
        active(items.drop_last()).push(items.last())
    }
}

/// Every item, marked done.
pub open spec fn all_done(items: Seq<ToDo>) -> Seq<ToDo> {
    items.map_values(|t: ToDo| (t.0, t.1, true))
}

fn first_position(items: &Vec<ToDo>, id: usize) -> (r: Option<usize>)
    ensures
        r matches Some(i) ==> i < items@.len() && has_id(items@, id) && i == first_with_id(items@, id),
        r is None ==> !has_id(items@, id),
{
    let mut i: usize = 0;
    while i < items.len()
        invariant
            i <= items@.len(),
            forall|j: int| 0 <= j < i ==> items@[j].0 != id,
        decreases items@.len() - i,
    {
        if items[i].0 == id {
            proof {
                assert(items@[i as int].0 == id);
                let k = first_with_id(items@, id);
                assert(0 <= k < items@.len() && items@[k].0 == id && forall|j: int| 0 <= j < k ==> items@[j].0 != id);
                if k < i {
                } else if k > i {
                    assert(items@[i as int].0 != id);
                }
            }
            return Some(i);
        }
        i = i + 1;
    }
    None
}

impl MainViewModel {
    pub fn new() -> (r: MainViewModel)
        ensures
            r.newTitle@ == Seq::<char>::empty(),
            r.items@ == Seq::<ToDo>::empty(),
            r.showAll == SHOW_ALL,
            r.nextId == 1,
    {
        MainViewModel { newTitle: String::new(), items: Vec::new(), showAll: SHOW_ALL, nextId: 1 }
    }

    /// Selects the filter; an unknown one shows all.
    pub fn setShowAll(&mut self, val: usize)
        ensures
            final(self).showAll == if val == SHOW_ACTIVE || val == SHOW_COMPLETED {
                val
            } else {
                SHOW_ALL
            },
            final(self).items@ == old(self).items@,
            final(self).newTitle == old(self).newTitle,
            final(self).nextId == old(self).nextId,
    {
        if val == SHOW_ACTIVE || val == SHOW_COMPLETED {
            self.showAll = val;
        } else {
            self.showAll = SHOW_ALL;
        }
    }

    /// The items the current filter shows, in order.
    pub fn getItems(&self) -> (r: Vec<ToDo>)
        ensures
            r@ == visible(self.items@, self.showAll),
    {
        let mut r: Vec<ToDo> = Vec::new();
        let show = self.showAll;
        let mut i: usize = 0;
        while i < self.items.len()
            invariant
                i <= self.items@.len(),
                show == self.showAll,
                r@ == visible(self.items@.subrange(0, i as int), show),
            decreases self.items@.len() - i,
        {
            let ghost sub = self.items@.subrange(0, i as int + 1);
            assert(sub.drop_last() =~= self.items@.subrange(0, i as int));
            assert(sub.last() == self.items@[i as int]);
            let it = &self.items[i];
            if show == SHOW_ALL || (show == SHOW_ACTIVE && !it.2) || (show == SHOW_COMPLETED && it.2) {
                r.push((it.0, it.1.clone(), it.2));
            }
            i = i + 1;
        }
        assert(self.items@.subrange(0, self.items@.len() as int) =~= self.items@);
        r
    }

    /// The number of items done.
    pub fn getCompleted(&self) -> (r: usize)
        ensures
            r == completed_count(self.items@),
    {
        let mut n: usize = 0;
        let mut i: usize = 0;
        while i < self.items.len()
            invariant
                i <= self.items@.len(),
                n == completed_count(self.items@.subrange(0, i as int)),
                n <= i,
            decreases self.items@.len() - i,
        {
            let ghost sub = self.items@.subrange(0, i as int + 1);
            assert(sub.drop_last() =~= self.items@.subrange(0, i as int));
            assert(sub.last() == self.items@[i as int]);
            if self.items[i].2 {
                n = n + 1;
            }
            i = i + 1;
        }
        assert(self.items@.subrange(0, self.items@.len() as int) =~= self.items@);
        n
    }

    /// Adds an item titled with the title being typed, not done, with a fresh id; the
    /// title being typed is cleared.
    pub fn createToDo(&mut self)
        ensures
            final(self).items@ == old(self).items@.push((old(self).nextId, old(self).newTitle, false)),
            final(self).newTitle@ == Seq::<char>::empty(),
            final(self).nextId == if old(self).nextId == usize::MAX {
                0
            } else {
                (old(self).nextId + 1) as usize
            },
            final(self).showAll == old(self).showAll,
    {
        let id = uniqId(&mut self.nextId);
        let title = self.newTitle.clone();
        self.items.push((id, title, false));
        self.newTitle = String::new();
    }

    /// Gives the first item with the id of `props` its title and state.
    pub fn updateToDo(&mut self, props: ToDo)
        ensures
            final(self).items@ == updated_item(old(self).items@, props),
            final(self).newTitle == old(self).newTitle,
            final(self).showAll == old(self).showAll,
            final(self).nextId == old(self).nextId,
    {
        match first_position(&self.items, props.0) {
            Some(i) => {
                self.items.set(i, props);
            },
            None => {},
        }
    }

    /// Removes the first item with id `itemId`.
    pub fn removeToDo(&mut self, itemId: usize)
        ensures
            final(self).items@ == removed(old(self).items@, itemId),
            final(self).newTitle == old(self).newTitle,
            final(self).showAll == old(self).showAll,
            final(self).nextId == old(self).nextId,
    {
        match first_position(&self.items, itemId) {
            Some(i) => {
                self.items.remove(i);
            },
            None => {},
        }
    }

    /// Removes the items done.
    pub fn clearCompleted(&mut self)
        ensures
            final(self).items@ == active(old(self).items@),
            final(self).newTitle == old(self).newTitle,
            final(self).showAll == old(self).showAll,
            final(self).nextId == old(self).nextId,
    {
        let mut kept: Vec<ToDo> = Vec::new();
        let mut i: usize = 0;
        while i < self.items.len()
            invariant
                i <= self.items@.len(),
                kept@ == active(self.items@.subrange(0, i as int)),
            decreases self.items@.len() - i,
        {
            let ghost sub = self.items@.subrange(0, i as int + 1);
            assert(sub.drop_last() =~= self.items@.subrange(0, i as int));
            assert(sub.last() == self.items@[i as int]);
            if !self.items[i].2 {
                kept.push((self.items[i].0, self.items[i].1.clone(), false));
            }
            i = i + 1;
        }
        assert(self.items@.subrange(0, self.items@.len() as int) =~= self.items@);
        self.items = kept;
    }

    /// Marks every item as done.
    pub fn completeAll(&mut self)
        ensures
            final(self).items@ == all_done(old(self).items@),
            final(self).newTitle == old(self).newTitle,
            final(self).showAll == old(self).showAll,
            final(self).nextId == old(self).nextId,
    {
        let mut done: Vec<ToDo> = Vec::new();
        let mut i: usize = 0;
        while i < self.items.len()
            invariant
                i <= self.items@.len(),
                done@ == all_done(self.items@.subrange(0, i as int)),
            decreases self.items@.len() - i,
        {
            done.push((self.items[i].0, self.items[i].1.clone(), true));
            i = i + 1;
            assert(done@ =~= all_done(self.items@.subrange(0, i as int)));
        }
        assert(self.items@.subrange(0, self.items@.len() as int) =~= self.items@);
        self.items = done;
    }
}

} // verus!
