use mtg_engine::card::CardDescriptor;
use mtg_engine::cost::{CostItem, ManaColor};
use mtg_engine::entity::EntityId;
use mtg_engine::ident::Ident;
use mtg_engine::mana_pool::{Mana, ManaId, ManaPool};
use mtg_engine::object_db::{CardId, ObjectDb};
use mtg_engine::player::{Player, PlayerId, Players};
use mtg_engine::pt::{PtCharacteristic, PtValue};
use mtg_engine::types::{copy_vec, has_type, CardType};
use mtg_engine::zone::{Zone, ZoneId, Zones};

fn named(name: &str) -> CardDescriptor {
    CardDescriptor {
        name: Ident::new(name),
        types: vec![],
        supertypes: vec![],
        subtypes: vec![],
        mana_cost: None,
        image: None,
        pt: None,
    }
}

#[test]
fn idents_hold_their_text() {
    let name = Ident::new("Grizzly Bears");
    assert_eq!(name.to_string(), "Grizzly Bears");
    assert!(name.is("Grizzly Bears"));
    assert!(!name.is("Forest"));
    assert!(!name.is(""));
    let copy = name.clone();
    assert_eq!(copy.to_string(), "Grizzly Bears");
    assert_eq!(Ident::new("").to_string(), "");
}

#[test]
fn catalog_finds_cards_by_name_and_place() {
    let db = ObjectDb::new(vec![named("Forest"), named("Island"), named("Forest")]);
    assert_eq!(db.card_id("Island"), Some(CardId(1)));
    assert_eq!(db.card_id("Forest"), Some(CardId(2)));
    assert_eq!(db.card_id("Swamp"), None);
    assert!(db.card(CardId(0)).unwrap().name.is("Forest"));
    assert!(db.card(CardId(3)).is_none());
    assert!(db.card_by_name("Island").unwrap().name.is("Island"));
    assert!(db.card_by_name("Swamp").is_none());
}

#[test]
fn mana_pool_spends_by_handle() {
    let mut pool = ManaPool::new();
    assert!(pool.is_empty());
    pool.add(Mana { color: ManaColor::White });
    pool.add(Mana { color: ManaColor::Blue });
    pool.add(Mana { color: ManaColor::Black });
    pool.add(Mana { color: ManaColor::Red });
    assert!(!pool.is_empty());
    assert_eq!(pool.get(ManaId(1)), Some(Mana { color: ManaColor::Blue }));
    assert_eq!(pool.get(ManaId(4)), None);
    pool.spend(&vec![ManaId(2), ManaId(0), ManaId(9), ManaId(2)]);
    assert_eq!(
        pool.iter(),
        vec![
            (ManaId(1), Mana { color: ManaColor::Blue }),
            (ManaId(3), Mana { color: ManaColor::Red }),
        ]
    );
    assert_eq!(pool.get(ManaId(0)), None);
    assert_eq!(pool.get(ManaId(1)), Some(Mana { color: ManaColor::Blue }));
    assert_eq!(pool.get(ManaId(2)), None);
    assert_eq!(pool.get(ManaId(3)), Some(Mana { color: ManaColor::Red }));
    pool.spend(&vec![]);
    assert_eq!(pool.iter().len(), 2);
    assert!(!pool.is_empty());
    pool.add(Mana { color: ManaColor::Green });
    assert_eq!(pool.get(ManaId(4)), Some(Mana { color: ManaColor::Green }));
    pool.spend(&vec![ManaId(1), ManaId(3), ManaId(4)]);
    assert!(pool.is_empty());
    assert_eq!(pool.iter(), vec![]);
    pool.add(Mana { color: ManaColor::White });
    pool.clear();
    assert!(pool.is_empty());
    assert_eq!(pool.get(ManaId(0)), None);
}

#[test]
fn cost_items_accept_their_mana() {
    let green = Mana { color: ManaColor::Green };
    let red = Mana { color: ManaColor::Red };
    assert!(CostItem::GenericMana.can_be_paid_with(&green));
    assert!(CostItem::XGenericMana.can_be_paid_with(&red));
    assert!(CostItem::ColoredMana(ManaColor::Green).can_be_paid_with(&green));
    assert!(!CostItem::ColoredMana(ManaColor::Green).can_be_paid_with(&red));
    assert!(CostItem::HybridMana(ManaColor::Blue, ManaColor::Red).can_be_paid_with(&red));
    assert!(CostItem::HybridMana(ManaColor::Red, ManaColor::Blue).can_be_paid_with(&red));
    assert!(!CostItem::HybridMana(ManaColor::Blue, ManaColor::Red).can_be_paid_with(&green));
    assert!(CostItem::MonocoloredHybridMana(ManaColor::Red).can_be_paid_with(&red));
    assert!(!CostItem::MonocoloredHybridMana(ManaColor::Red).can_be_paid_with(&green));
    assert!(CostItem::PhyrexianMana(ManaColor::Green).can_be_paid_with(&green));
    assert!(!CostItem::PhyrexianMana(ManaColor::Green).can_be_paid_with(&red));
    assert!(!CostItem::Tap.can_be_paid_with(&green));
    assert!(!CostItem::ColorlessMana.can_be_paid_with(&green));
    assert!(!CostItem::SnowMana.can_be_paid_with(&green));
}

#[test]
fn players_stand_in_turn_order() {
    let players = Players::new(3);
    assert_eq!(players.len(), 3);
    assert_eq!(players.iter(), vec![PlayerId(0), PlayerId(1), PlayerId(2)]);
    assert_eq!(players.player_after(PlayerId(0)), PlayerId(1));
    assert_eq!(players.player_after(PlayerId(1)), PlayerId(2));
    assert_eq!(players.player_after(PlayerId(2)), PlayerId(0));
    assert!(players.get(PlayerId(3)).is_none());
    let second = players.get(PlayerId(1)).unwrap();
    assert_eq!(second.id.to_u32(), 1);
    assert_eq!(second.name, "Player 2");
    assert_eq!(second.life, 20);
    assert!(!second.has_lost);
    assert_eq!(second.lands_played_this_turn, 0);
    assert_eq!(
        second.mana_pool.iter(),
        vec![
            (ManaId(0), Mana { color: ManaColor::Green }),
            (ManaId(1), Mana { color: ManaColor::Red }),
            (ManaId(2), Mana { color: ManaColor::Green }),
        ]
    );
}

#[test]
fn players_can_be_changed_in_place() {
    let mut players = Players::new(2);
    players.get_mut(PlayerId(1)).unwrap().life = 3;
    assert!(players.get_mut(PlayerId(2)).is_none());
    assert_eq!(players.get(PlayerId(1)).unwrap().life, 3);
    assert_eq!(players.get(PlayerId(0)).unwrap().life, 20);
    let lone = Player::new(PlayerId(4), "Solo".to_string());
    assert_eq!(lone.id, PlayerId(4));
    assert_eq!(lone.name, "Solo");
}

#[test]
fn zones_keep_their_members_in_order() {
    let mut zone = Zone::new();
    assert!(zone.is_empty());
    zone.add(EntityId(3));
    zone.add(EntityId(1));
    zone.add(EntityId(2));
    zone.add(EntityId(1));
    assert!(zone.contains(EntityId(2)));
    zone.remove(EntityId(1));
    assert_eq!(zone.members(), &vec![EntityId(3), EntityId(2)]);
    zone.remove(EntityId(9));
    assert_eq!(zone.members(), &vec![EntityId(3), EntityId(2)]);
    assert!(!zone.contains(EntityId(1)));
    zone.clear();
    assert!(zone.is_empty());
}

#[test]
fn shuffle_keeps_the_members() {
    let mut zone = Zone::new();
    for bits in 1..=40u64 {
        zone.add(EntityId(bits));
    }
    zone.shuffle();
    let mut after: Vec<u64> = zone.members().iter().map(|id| id.to_bits()).collect();
    after.sort();
    assert_eq!(after, (1..=40u64).collect::<Vec<u64>>());
}

#[test]
fn every_player_has_zones() {
    let mut zones = Zones::new(2);
    assert!(zones.contains_zone(ZoneId::Stack));
    assert!(zones.contains_zone(ZoneId::Hand(PlayerId(1))));
    assert!(!zones.contains_zone(ZoneId::Hand(PlayerId(2))));
    assert!(zones.get(ZoneId::Graveyard(PlayerId(2))).is_none());
    zones.get_mut(ZoneId::Library(PlayerId(1))).unwrap().add(EntityId(5));
    assert!(zones.get_mut(ZoneId::Library(PlayerId(2))).is_none());
    assert_eq!(zones.get(ZoneId::Library(PlayerId(1))).unwrap().members(), &vec![EntityId(5)]);
    assert!(zones.get(ZoneId::Library(PlayerId(0))).unwrap().is_empty());
    assert!(zones.get(ZoneId::Hand(PlayerId(1))).unwrap().is_empty());
    assert_eq!(zones.libraries.len(), 2);
}

#[test]
fn small_helpers() {
    assert!(has_type(&vec![CardType::Artifact, CardType::Creature], CardType::Creature));
    assert!(!has_type(&vec![CardType::Artifact], CardType::Creature));
    assert_eq!(copy_vec(&vec![3u8, 1, 2]), vec![3u8, 1, 2]);
    assert_eq!(PtCharacteristic::Normal(PtValue::new(2, 3)).resolve(), PtValue { power: 2, toughness: 3 });
    assert_eq!(EntityId(77).to_bits(), 77);
}
