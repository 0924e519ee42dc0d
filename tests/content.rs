use ship_core::content::{
    collect_map_data, parse_map, parse_player_stats, parse_quest, MapData, MapFiles, PlayerStats,
    QuestData, RaceModifiers,
};

type TestMap = MapData<u8, u16, u32, i8>;
type Files = MapFiles<u8, u16, u32, i8>;

fn s(x: &str) -> String {
    x.to_string()
}

fn base() -> TestMap {
    MapData {
        luas: vec![(s("init"), s("old init"))],
        objects: vec![1],
        transporters: vec![],
        events: vec![7],
        npcs: vec![],
    }
}

fn files() -> Files {
    MapFiles {
        luas: vec![(s("a"), s("a1")), (s("init"), s("new init")), (s("a"), s("a2"))],
        objects: vec![vec![2, 3], vec![], vec![4]],
        transporters: vec![vec![10]],
        events: vec![],
        npcs: vec![vec![-1], vec![-2, -3]],
    }
}

#[test]
fn map_collects_files_in_order() {
    let m = parse_map(base(), files());
    assert_eq!(m.objects, vec![1, 2, 3, 4]);
    assert_eq!(m.transporters, vec![10]);
    assert_eq!(m.events, vec![7]);
    assert_eq!(m.npcs, vec![-1, -2, -3]);
    assert_eq!(m.luas, vec![(s("init"), s("new init")), (s("a"), s("a2"))]);
}

#[test]
fn collect_with_no_files_keeps_map() {
    let mut m = base();
    let empty: Files = MapFiles { luas: vec![], objects: vec![], transporters: vec![], events: vec![], npcs: vec![] };
    collect_map_data(&mut m, empty);
    assert_eq!(m, base());
}

#[test]
fn quest_map_replaced_when_present() {
    let q = QuestData { map: base(), enemies: vec![100u64] };
    let own = MapData { luas: vec![], objects: vec![9], transporters: vec![], events: vec![], npcs: vec![] };
    let r = parse_quest(q, Some((own, files())), vec![vec![200], vec![300, 400]]);
    assert_eq!(r.map.objects, vec![9, 2, 3, 4]);
    assert_eq!(r.map.luas, vec![(s("a"), s("a2")), (s("init"), s("new init"))]);
    assert_eq!(r.enemies, vec![100, 200, 300, 400]);
}

#[test]
fn quest_without_map_keeps_its_map() {
    let q = QuestData { map: base(), enemies: vec![] };
    let r = parse_quest(q, None, vec![vec![5u64]]);
    assert_eq!(r.map, base());
    assert_eq!(r.enemies, vec![5]);
}

fn mods() -> RaceModifiers<u8> {
    RaceModifiers {
        human_male: 1,
        human_female: 2,
        newman_male: 3,
        newman_female: 4,
        cast_male: 5,
        cast_female: 6,
        deuman_male: 7,
        deuman_female: 8,
    }
}

#[test]
fn player_stats_in_race_and_class_order() {
    let r = parse_player_stats(Some(mods()), vec![(2, "hunter"), (0, "fighter"), (2, "hunter2")]);
    assert_eq!(
        r,
        PlayerStats { modifiers: vec![1, 2, 3, 4, 5, 6, 7, 8], stats: vec![Some("fighter"), None, Some("hunter2")] }
    );
}

#[test]
fn player_stats_without_files() {
    let r: PlayerStats<u8, &str> = parse_player_stats(None, vec![]);
    assert!(r.modifiers.is_empty());
    assert!(r.stats.is_empty());
}
