use genso_save::calendar::GensoDate;
use genso_save::item::{FertilizerItem, Item, SoilItem};
use genso_save::save::{NativeSaveData, SaveSlot};

#[test]
fn new_save_is_empty_at_campaign_start() {
    let save = NativeSaveData::new();
    assert_eq!(save.get_items().size(), 0);
    assert_eq!(*save.get_date(), GensoDate::new(112, 5, 1));
}

#[test]
fn save_ledger_delegation() {
    let x = Item::Soil(SoilItem::Fuyodo);
    let mut save = NativeSaveData::new();
    save.add_items(x, 2);
    save.add_items(x, 3);
    assert_eq!(save.get_items().iter(), vec![(x, 5)]);
}

#[test]
fn slot_starts_uninstalled() {
    let slot = SaveSlot::new();
    assert!(!slot.installed());
}

#[test]
fn install_new_gives_fresh_save() {
    let mut slot = SaveSlot::new();
    slot.install_new();
    assert!(slot.installed());
    let date = slot.with(|save| *save.get_date());
    assert_eq!(date, GensoDate::new(112, 5, 1));
    let count = slot.with(|save| save.get_items().size());
    assert_eq!(count, 0);
}

#[test]
fn scoped_mutation_updates_the_occupant() {
    let y = Item::Fertilizer(FertilizerItem::ShimoGoe);
    let mut slot = SaveSlot::new();
    slot.install_new();
    let previous = slot.with_mut(|mut save| {
        let previous = save.get_items().size();
        save.add_items(y, 7);
        (save, previous)
    });
    assert_eq!(previous, 0);
    let entries = slot.with(|save| save.get_items().iter());
    assert_eq!(entries, vec![(y, 7)]);
}

#[test]
fn install_replaces_wholesale() {
    let x = Item::Soil(SoilItem::Kurotsuchi);
    let mut slot = SaveSlot::new();
    slot.install_new();
    slot.with_mut(|mut save| {
        save.add_items(x, 1);
        (save, ())
    });
    slot.install_new();
    assert_eq!(slot.with(|save| save.get_items().size()), 0);

    let mut other = NativeSaveData::new();
    other.add_items(x, 9);
    slot.install_loaded(other);
    assert_eq!(slot.with(|save| save.get_items().iter()), vec![(x, 9)]);
}
