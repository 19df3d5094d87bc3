use kill_stats::aggregate::PartialAggregate;
use kill_stats::csvs_processor::{
    can_measure, Coordinates, FileRead, Line, LineRead, NumberOfDeathsAndDistances, PlayersWeapons,
    Processor,
};
use kill_stats::table::Table;
use kill_stats::tally::Tally;
use kill_stats::weapon_stats::WeaponStats;

fn number(field: &[u8]) -> Option<f64> {
    std::str::from_utf8(field).ok()?.parse::<f64>().ok()
}

fn measure(at: &Coordinates) -> Option<u64> {
    let killer_x = number(at.killer_x)?;
    let killer_y = number(at.killer_y)?;
    let victim_x = number(at.victim_x)?;
    let victim_y = number(at.victim_y)?;
    let distance = ((killer_x - victim_x).powi(2) + (killer_y - victim_y).powi(2)).sqrt();
    let millionths = (distance * 1_000_000.0).round();
    if millionths.is_finite() && millionths < 18_000_000_000_000_000_000.0 {
        Some(millionths as u64)
    } else {
        None
    }
}

fn read(text: &str) -> LineRead {
    let line = Line::parse(text.as_bytes());
    let distance = line.coordinates().and_then(|at| measure(&at));
    match distance {
        Some(distance) => Some(line.measured(distance)),
        None => Some(line),
    }
}

fn file(lines: &[&str]) -> FileRead {
    Some(lines.iter().map(|text| read(text)).collect())
}

fn weapons_of(table: &NumberOfDeathsAndDistances) -> Vec<(String, u64, u64, u128)> {
    (0..table.len())
        .map(|i| {
            let stats = table.value_at(i);
            (
                String::from_utf8(table.name_at(i).clone()).unwrap(),
                stats.get_total_kills_caused_by_weapon(),
                stats.get_number_of_kills_with_valid_distance(),
                stats.get_death_distance(),
            )
        })
        .collect()
}

fn counts_of(table: &Table<u64>) -> Vec<(String, u64)> {
    (0..table.len())
        .map(|i| (String::from_utf8(table.name_at(i).clone()).unwrap(), *table.value_at(i)))
        .collect()
}

fn players_of(table: &PlayersWeapons) -> Vec<(String, Vec<(String, u64)>)> {
    (0..table.len())
        .map(|i| {
            (String::from_utf8(table.name_at(i).clone()).unwrap(), counts_of(table.value_at(i)))
        })
        .collect()
}

fn same(a: &PartialAggregate, b: &PartialAggregate) -> bool {
    weapons_of(&a.weapons) == weapons_of(&b.weapons) && players_of(&a.players) == players_of(&b.players)
}

fn aggregate_of(lines: &[&str]) -> PartialAggregate {
    let processor = Processor::new();
    let mut whole = PartialAggregate::empty();
    for text in lines {
        if let Some(update) = processor.map_line(&read(text)) {
            whole.fold_line(update);
        }
    }
    whole
}

const SAMPLE: [&str; 8] = [
    "AK47,ann,,1,1,,,,,,4,5",
    "AK47,bob,,2,2,,,,,,4,5",
    "Knife,ann,,0,0,,,,,,3,4",
    "M416,cy,,x,1,,,,,,4,5",
    "Knife,,,0,0,,,,,,0,1",
    "M416,bob",
    "AK47,ann,,10,10,,,,,,10,10",
    "Pan,cy,,1.5,2.5,,,,,,1.5,4.5",
];

#[test]
fn two_kills_with_the_same_weapon() {
    let whole = aggregate_of(&["AK47,p1,,1,1,,,,,,4,5", "AK47,p2,,2,2,,,,,,4,5"]);
    assert_eq!(whole.weapons.len(), 1);
    let stats = whole.weapons.get(b"AK47").unwrap();
    assert_eq!(stats.get_total_kills_caused_by_weapon(), 2);
    assert_eq!(stats.get_number_of_kills_with_valid_distance(), 2);
    assert_eq!(stats.get_death_distance(), 5_000_000 + 3_605_551);
    assert_eq!(
        players_of(&whole.players),
        vec![
            ("p1".to_string(), vec![("AK47".to_string(), 1)]),
            ("p2".to_string(), vec![("AK47".to_string(), 1)]),
        ]
    );
    assert_eq!(whole.total_kills(), 2);
}

#[test]
fn line_with_an_empty_killer_name() {
    let whole = aggregate_of(&["Knife,,,1,1,,,,,,4,5"]);
    let stats = whole.weapons.get(b"Knife").unwrap();
    assert_eq!(stats.get_total_kills_caused_by_weapon(), 1);
    assert_eq!(stats.get_number_of_kills_with_valid_distance(), 1);
    assert_eq!(whole.players.len(), 0);
}

#[test]
fn line_without_a_killer_field() {
    let whole = aggregate_of(&["Knife"]);
    assert_eq!(weapons_of(&whole.weapons), vec![("Knife".to_string(), 1, 0, 0)]);
    assert_eq!(whole.players.len(), 0);
}

#[test]
fn line_with_coordinates_that_are_no_numbers() {
    let whole = aggregate_of(&["AK47,ann,,one,1,,,,,,4,5"]);
    assert_eq!(weapons_of(&whole.weapons), vec![("AK47".to_string(), 1, 0, 0)]);
    assert_eq!(players_of(&whole.players), vec![("ann".to_string(), vec![("AK47".to_string(), 1)])]);
}

#[test]
fn each_coordinate_must_be_a_number() {
    for text in [
        "AK47,ann,,,1,,,,,,4,5",
        "AK47,ann,,1,,,,,,,4,5",
        "AK47,ann,,1,1,,,,,,x4,5",
        "AK47,ann,,1,1,,,,,,4, 5",
        "AK47,ann,,1,1,,,,,,4",
    ] {
        let whole = aggregate_of(&[text]);
        assert_eq!(weapons_of(&whole.weapons), vec![("AK47".to_string(), 1, 0, 0)]);
    }
}

#[test]
fn a_distance_counts_only_where_the_coordinates_are_numbers() {
    let processor = Processor::new();
    let line = Line::parse(b"AK47,ann,,one,1,,,,,,4,5").measured(7);
    assert!(!can_measure(&line.fields));
    assert!(line.coordinates().is_none());
    let update = processor.map_line(&Some(line)).unwrap();
    assert_eq!(weapons_of(&update.weapons), vec![("AK47".to_string(), 1, 0, 0)]);

    let line = Line::parse(b"AK47,ann,,1,1,,,,,,4,5");
    assert!(can_measure(&line.fields));
    let at = line.coordinates().unwrap();
    assert_eq!(at.killer_x.as_slice(), b"1");
    assert_eq!(at.killer_y.as_slice(), b"1");
    assert_eq!(at.victim_x.as_slice(), b"4");
    assert_eq!(at.victim_y.as_slice(), b"5");
    let update = processor.map_line(&Some(line)).unwrap();
    assert_eq!(weapons_of(&update.weapons), vec![("AK47".to_string(), 1, 0, 0)]);

    let line = Line::parse(b"AK47,ann,,1,1,,,,,,4,5").measured(7);
    let update = processor.map_line(&Some(line)).unwrap();
    assert_eq!(weapons_of(&update.weapons), vec![("AK47".to_string(), 1, 1, 7)]);
}

#[test]
fn the_empty_line_has_one_empty_field() {
    let whole = aggregate_of(&[""]);
    assert_eq!(weapons_of(&whole.weapons), vec![("".to_string(), 1, 0, 0)]);
    assert_eq!(whole.players.len(), 0);
}

#[test]
fn a_line_without_fields_adds_nothing() {
    let processor = Processor::new();
    assert!(processor.map_line(&Some(Line { fields: Vec::new(), distance: Some(3) })).is_none());
    let reads = vec![Some(Line { fields: Vec::new(), distance: None }), read("AK47,ann")];
    assert_eq!(processor.map_lines(&reads).len(), 1);
    let whole = processor.process_file(&Some(reads));
    assert_eq!(weapons_of(&whole.weapons), vec![("AK47".to_string(), 1, 0, 0)]);
    let mut weapons: NumberOfDeathsAndDistances = Table::new();
    processor.process_weapon(&Vec::new(), WeaponStats::new(0, 0, 0), &mut weapons);
    assert_eq!(weapons.len(), 0);
}

#[test]
fn a_line_that_was_not_read_is_left_out() {
    let processor = Processor::new();
    assert!(processor.map_line(&None).is_none());
    let reads = vec![read("AK47,ann"), None, read("Knife,bob"), None];
    let items = processor.map_lines(&reads);
    assert_eq!(items.len(), 2);
    assert_eq!(weapons_of(&items[0].weapons), vec![("AK47".to_string(), 1, 0, 0)]);
    assert_eq!(weapons_of(&items[1].weapons), vec![("Knife".to_string(), 1, 0, 0)]);
}

#[test]
fn a_file_that_was_not_opened_is_left_out() {
    let processor = Processor::new();
    let files = vec![file(&["AK47,ann"]), None, file(&["AK47,bob", "Knife,ann"])];
    let whole = processor.process_csvs(&files);
    assert!(same(&whole, &aggregate_of(&["AK47,ann", "AK47,bob", "Knife,ann"])));
    assert_eq!(processor.process_file(&None).total_kills(), 0);
}

#[test]
fn process_weapon_and_player_count_into_what_is_there() {
    let processor = Processor::new();
    let fields = Line::parse(b"AK47,ann").fields;
    let mut weapons: NumberOfDeathsAndDistances = Table::new();
    processor.process_weapon(&fields, WeaponStats::new(0, 0, 0), &mut weapons);
    processor.process_weapon(&fields, WeaponStats::new(9, 1, 1), &mut weapons);
    assert_eq!(weapons_of(&weapons), vec![("AK47".to_string(), 3, 1, 9)]);
    let mut players: PlayersWeapons = Table::new();
    processor.process_player(&fields, &mut players);
    processor.process_player(&fields, &mut players);
    processor.process_player(&Line::parse(b"Knife,ann").fields, &mut players);
    processor.process_player(&Line::parse(b"Knife,").fields, &mut players);
    assert_eq!(
        players_of(&players),
        vec![("ann".to_string(), vec![("AK47".to_string(), 2), ("Knife".to_string(), 1)])]
    );
    let mut stats = WeaponStats::new(0, 0, 0);
    processor.process_murder_coordinates(&Line::parse(b"a,b,,1,2,,,,,,3,4").fields, Some(11), &mut stats);
    processor.process_murder_coordinates(&Line::parse(b"a,b,,1,2,,,,,,3,4").fields, None, &mut stats);
    processor.process_murder_coordinates(&Line::parse(b"a,b,,1,2,,,,,,3").fields, Some(5), &mut stats);
    assert_eq!(stats.get_death_distance(), 11);
    assert_eq!(stats.get_number_of_kills_with_valid_distance(), 1);
    assert_eq!(stats.get_total_kills_caused_by_weapon(), 0);
}

#[test]
fn merging_with_the_empty_aggregate_changes_nothing() {
    let whole = aggregate_of(&SAMPLE);
    let left = PartialAggregate::empty().merge(aggregate_of(&SAMPLE));
    let right = aggregate_of(&SAMPLE).merge(PartialAggregate::empty());
    assert!(same(&left, &whole));
    assert!(same(&right, &whole));
    assert_eq!(PartialAggregate::empty().total_kills(), 0);
    assert_eq!(PartialAggregate::empty().weapons.len(), 0);
    assert_eq!(PartialAggregate::empty().players.len(), 0);
}

#[test]
fn merging_adds_counts_name_by_name() {
    let both = aggregate_of(&SAMPLE[..3]).merge(aggregate_of(&SAMPLE[3..]));
    assert_eq!(
        weapons_of(&both.weapons),
        vec![
            ("AK47".to_string(), 3, 3, 5_000_000 + 3_605_551),
            ("Knife".to_string(), 2, 2, 5_000_000 + 1_000_000),
            ("M416".to_string(), 2, 0, 0),
            ("Pan".to_string(), 1, 1, 2_000_000),
        ]
    );
    assert_eq!(
        players_of(&both.players),
        vec![
            ("ann".to_string(), vec![("AK47".to_string(), 2), ("Knife".to_string(), 1)]),
            ("bob".to_string(), vec![("AK47".to_string(), 1), ("M416".to_string(), 1)]),
            ("cy".to_string(), vec![("M416".to_string(), 1), ("Pan".to_string(), 1)]),
        ]
    );
    assert_eq!(both.total_kills(), 8);
}

#[test]
fn merging_in_any_order_and_grouping_gives_the_same() {
    let whole = aggregate_of(&SAMPLE);
    let a = || aggregate_of(&SAMPLE[..2]);
    let b = || aggregate_of(&SAMPLE[2..5]);
    let c = || aggregate_of(&SAMPLE[5..]);
    assert!(same(&a().merge(b()).merge(c()), &whole));
    assert!(same(&a().merge(b().merge(c())), &whole));
    assert!(same(&c().merge(a()).merge(b()), &whole));
    assert!(same(&b().merge(c().merge(a())), &whole));
    let mut backwards = SAMPLE;
    backwards.reverse();
    assert!(same(&aggregate_of(&backwards), &whole));
    let shuffled = [SAMPLE[3], SAMPLE[0], SAMPLE[7], SAMPLE[5], SAMPLE[1], SAMPLE[6], SAMPLE[2], SAMPLE[4]];
    assert!(same(&aggregate_of(&shuffled[..5]).merge(aggregate_of(&shuffled[5..])), &whole));
}

#[test]
fn folding_a_line_is_merging_its_aggregate() {
    let processor = Processor::new();
    let mut folded = aggregate_of(&SAMPLE[..4]);
    folded.fold_line(processor.map_line(&read(SAMPLE[4])).unwrap());
    let merged = aggregate_of(&SAMPLE[..4]).merge(processor.map_line(&read(SAMPLE[4])).unwrap());
    assert!(same(&folded, &merged));
    assert!(same(&folded, &aggregate_of(&SAMPLE[..5])));
}

#[test]
fn every_line_is_counted_once() {
    let processor = Processor::new();
    let files = vec![file(&SAMPLE[..3]), file(&[]), file(&SAMPLE[3..])];
    let whole = processor.process_csvs(&files);
    assert_eq!(whole.total_kills(), SAMPLE.len() as u64);
    assert!(same(&whole, &aggregate_of(&SAMPLE)));
    let total: u64 = weapons_of(&whole.weapons).iter().map(|entry| entry.1).sum();
    assert_eq!(total, 8);
}

#[test]
fn many_lines_reduce_to_their_sum() {
    let processor = Processor::new();
    let names = ["AK47", "Knife", "M416", "Pan", "UMP9"];
    let mut reads: Vec<LineRead> = Vec::new();
    for i in 0..5000usize {
        reads.push(read(&format!("{},q{},,0,0,,,,,,0,{}", names[i % 5], i % 7, i % 3)));
    }
    let items = processor.map_lines(&reads);
    assert_eq!(items.len(), 5000);
    let whole = processor.reduce_mapped_iter(items);
    assert_eq!(whole.total_kills(), 5000);
    assert_eq!(whole.weapons.len(), 5);
    assert_eq!(whole.players.len(), 7);
    let stats = whole.weapons.get(b"Knife").unwrap();
    assert_eq!(stats.get_total_kills_caused_by_weapon(), 1000);
    assert_eq!(stats.get_number_of_kills_with_valid_distance(), 1000);
    let sum: u128 = (0..5000u128).filter(|i| i % 5 == 1).map(|i| (i % 3) * 1_000_000).sum();
    assert_eq!(stats.get_death_distance(), sum);
    let kills: u64 = counts_of(whole.players.get(b"q3").unwrap()).iter().map(|entry| entry.1).sum();
    assert_eq!(kills, (0..5000).filter(|i| i % 7 == 3).count() as u64);
    assert_eq!(processor.reduce_mapped_iter(Vec::new()).total_kills(), 0);
}

#[test]
fn tables_keep_their_names_in_order() {
    let mut table: Table<u64> = Table::new();
    for name in ["pear", "apple", "fig", "apple", "Pear", "", "fig", "apples"] {
        table.upsert(name.as_bytes().to_vec(), 2);
    }
    assert_eq!(
        counts_of(&table),
        vec![
            ("".to_string(), 2),
            ("Pear".to_string(), 2),
            ("apple".to_string(), 4),
            ("apples".to_string(), 2),
            ("fig".to_string(), 4),
            ("pear".to_string(), 2),
        ]
    );
    assert_eq!(table.total(), 16);
    assert_eq!(table.count(), 16);
    assert_eq!(table.get(b"fig"), Some(&4));
    assert_eq!(table.get(b"figs"), None);
    let mut other: Table<u64> = Table::new();
    other.upsert(b"fig".to_vec(), 1);
    other.upsert(b"kiwi".to_vec(), 5);
    table.absorb(other);
    assert_eq!(table.get(b"fig"), Some(&5));
    assert_eq!(table.get(b"kiwi"), Some(&5));
    assert_eq!(table.len(), 7);
}

#[test]
fn weapon_stats_add_up() {
    let mut stats = WeaponStats::new(10, 1, 2);
    stats.set_death_distance(5);
    stats.set_number_of_kills_with_valid_distance(2);
    stats.set_total_kills_caused_by_weapon(3);
    assert_eq!(stats.get_death_distance(), 15);
    assert_eq!(stats.get_number_of_kills_with_valid_distance(), 3);
    assert_eq!(stats.get_total_kills_caused_by_weapon(), 5);
    stats.absorb(WeaponStats::new(1, 1, 1));
    assert_eq!(stats.get_death_distance(), 16);
    assert_eq!(stats.get_number_of_kills_with_valid_distance(), 4);
    assert_eq!(stats.get_total_kills_caused_by_weapon(), 6);
    assert_eq!(stats.count(), 6);
}
