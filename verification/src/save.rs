//! The save aggregate and the save slot.
//!
//! `NativeSaveData` bundles one item ledger and one calendar date; it is
//! the exact unit the codec persists. `SaveSlot` holds at most one
//! aggregate "in play" and hands out scoped access to it, so that call
//! sites cannot keep a borrow beyond the access and cannot bypass the
//! install operations.

use crate::calendar::GensoDate;
use crate::item::Item;
use crate::ledger::ItemManager;
use vstd::prelude::*;

verus! {

/// The fixed campaign-start date of a fresh save.
pub open spec fn start_date() -> GensoDate {
    GensoDate { season: 112, month: 5, day: 1 }
}

/// One save: the ledger of collected items and the in-game date.
pub struct NativeSaveData {
    items: ItemManager,
    date: GensoDate,
}

impl NativeSaveData {
    /// The ledger inside the save.
    pub closed spec fn spec_items(self) -> ItemManager {
        self.items
    }

    /// The date inside the save.
    pub closed spec fn spec_date(self) -> GensoDate {
        self.date
    }

    /// Invariant: the ledger's keys are distinct.
    pub open spec fn wf(self) -> bool {
        self.spec_items().wf()
    }

    /// A fresh save: empty ledger, campaign-start date.
    pub fn new() -> (r: NativeSaveData)
        ensures
            r.wf(),
            r.spec_items()@ == Seq::<(Item, usize)>::empty(),
            r.spec_date() == start_date(),
    {
        NativeSaveData { items: ItemManager::new(), date: GensoDate::new(112, 5, 1) }
    }

    /// Rebuilds a save from already-validated parts; the codec's way in.
    pub(crate) fn from_parts(items: ItemManager, date: GensoDate) -> (r: NativeSaveData)
        ensures
            r.spec_items() == items,
            r.spec_date() == date,
    {
        NativeSaveData { items, date }
    }

    /// Read-only view of the ledger.
    pub fn get_items(&self) -> (r: &ItemManager)
        ensures
            *r == self.spec_items(),
    {
        &self.items
    }

    /// Adds `count` units of `item` to the ledger; counts accumulate.
    pub fn add_items(&mut self, item: Item, count: usize)
        requires
            old(self).wf(),
            old(self).spec_items().as_map().contains_key(item) ==> old(
                self,
            ).spec_items().as_map()[item] + count <= usize::MAX,
        ensures
            final(self).wf(),
            final(self).spec_date() == old(self).spec_date(),
            final(self).spec_items().as_map() == old(self).spec_items().as_map().insert(
                item,
                if old(self).spec_items().as_map().contains_key(item) {
                    (old(self).spec_items().as_map()[item] + count) as usize
                } else {
                    count
                },
            ),
            !old(self).spec_items().as_map().contains_key(item) ==> final(self).spec_items()@
                == old(self).spec_items()@.push((item, count)),
            final(self).spec_items()@.len() == if old(self).spec_items().as_map().contains_key(
                item,
            ) {
                old(self).spec_items()@.len()
            } else {
                old(self).spec_items()@.len() + 1
            },
    {
        self.items.add_items(item, count);
    }

    /// Read-only view of the date.
    pub fn get_date(&self) -> (r: &GensoDate)
        ensures
            *r == self.spec_date(),
    {
        &self.date
    }
}

/// Single-occupant holder of the save that is currently in play.
///
/// The slot starts uninstalled; `install_new` and `install_loaded` replace
/// the occupant wholesale, and `with` / `with_mut` give scoped access to
/// it. Reading or mutating an uninstalled slot is a caller error, stated
/// as a precondition.
pub struct SaveSlot {
    current: Option<NativeSaveData>,
}

impl SaveSlot {
    /// Whether a save has been installed.
    pub closed spec fn is_installed(self) -> bool {
        self.current is Some
    }

    /// The save currently in play; meaningful only when installed.
    pub closed spec fn spec_current(self) -> NativeSaveData {
        self.current.unwrap()
    }

    /// An uninstalled slot.
    pub fn new() -> (r: SaveSlot)
        ensures
            !r.is_installed(),
    {
        SaveSlot { current: None }
    }

    /// Executable probe for the install state.
    pub fn installed(&self) -> (r: bool)
        ensures
            r == self.is_installed(),
    {
        self.current.is_some()
    }

    /// Discards any current save and installs a fresh one ("new game").
    /// Cannot fail.
    pub fn install_new(&mut self)
        ensures
            final(self).is_installed(),
            final(self).spec_current().wf(),
            final(self).spec_current().spec_items()@ == Seq::<(Item, usize)>::empty(),
            final(self).spec_current().spec_date() == start_date(),
    {
        self.current = Some(NativeSaveData::new());
    }

    /// Discards any current save and installs a loaded one.
    pub fn install_loaded(&mut self, data: NativeSaveData)
        ensures
            final(self).is_installed(),
            final(self).spec_current() == data,
    {
        self.current = Some(data);
    }

    /// Scoped read access: the callback borrows the current save for the
    /// duration of the call and nothing longer.
    pub fn with<R, F: FnOnce(&NativeSaveData) -> R>(&self, f: F) -> (r: R)
        requires
            self.is_installed(),
            call_requires(f, (&self.spec_current(),)),
        ensures
            call_ensures(f, (&self.spec_current(),), r),
    {
        match &self.current {
            Some(data) => f(data),
            None => vstd::pervasive::unreached(),
        }
    }

    /// Scoped mutable access in ownership-passing form: the callback
    /// receives the current save, and the save it returns becomes the new
    /// occupant. (The verifier does not take closures with `&mut`
    /// parameters, so the borrow is spelled as a move and a return.)
    pub fn with_mut<R, F: FnOnce(NativeSaveData) -> (NativeSaveData, R)>(&mut self, f: F) -> (r: R)
        requires
            old(self).is_installed(),
            call_requires(f, (old(self).spec_current(),)),
        ensures
            final(self).is_installed(),
            call_ensures(f, (old(self).spec_current(),), (final(self).spec_current(), r)),
    {
        let data = match self.current.take() {
            Some(data) => data,
            None => vstd::pervasive::unreached(),
        };
        let (data, r) = f(data);
        self.current = Some(data);
        r
    }
}

} // verus!
