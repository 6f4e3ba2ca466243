use genso_save::item::{FertilizerItem, Item, SoilItem};
use genso_save::ledger::ItemManager;

#[test]
fn adding_same_item_accumulates() {
    let x = Item::Soil(SoilItem::Fuyodo);
    let mut ledger = ItemManager::new();
    ledger.add_items(x, 2);
    ledger.add_items(x, 3);
    assert_eq!(ledger.size(), 1);
    assert_eq!(ledger.iter(), vec![(x, 5)]);
}

#[test]
fn distinct_items_get_their_own_entries() {
    let a = Item::Soil(SoilItem::Kurotsuchi);
    let b = Item::Fertilizer(FertilizerItem::Gyohi);
    let mut ledger = ItemManager::new();
    ledger.add_items(a, 1);
    ledger.add_items(b, 4);
    ledger.add_items(a, 2);
    assert_eq!(ledger.size(), 2);
    assert_eq!(ledger.iter(), vec![(a, 3), (b, 4)]);
}

#[test]
fn empty_ledger() {
    let ledger = ItemManager::new();
    assert_eq!(ledger.size(), 0);
    assert!(ledger.iter().is_empty());
    assert!(!ledger.contains_item(Item::Soil(SoilItem::Baiyodo)));
}

#[test]
fn zero_count_is_stored_like_any_other() {
    let x = Item::Fertilizer(FertilizerItem::Chemical);
    let mut ledger = ItemManager::new();
    ledger.add_items(x, 0);
    assert_eq!(ledger.size(), 1);
    assert_eq!(ledger.iter(), vec![(x, 0)]);
    ledger.add_items(x, 9);
    assert_eq!(ledger.iter(), vec![(x, 9)]);
}

#[test]
fn contains_item_tracks_keys() {
    let x = Item::Soil(SoilItem::Fuyodo);
    let y = Item::Soil(SoilItem::Baiyodo);
    let mut ledger = ItemManager::new();
    ledger.add_items(x, 1);
    assert!(ledger.contains_item(x));
    assert!(!ledger.contains_item(y));
}
