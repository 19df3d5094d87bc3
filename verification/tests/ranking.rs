use kill_stats::aggregate::PartialAggregate;
use kill_stats::csvs_processor::{Line, Processor};
use kill_stats::table::Table;
use kill_stats::top_calculator::{
    calculate_average_distance, calculate_percentage, calculate_top_weapons_for_player,
    calculate_total_deaths, sort_players_by_kills, sort_weapons_by_kills, RankedPlayerEntry,
    RankedWeaponEntry, TopCalculator,
};
use kill_stats::weapon_stats::WeaponStats;

fn gathered(lines: &[(&str, Option<u64>)]) -> PartialAggregate {
    let processor = Processor::new();
    let mut whole = PartialAggregate::empty();
    for (text, distance) in lines {
        let line = Line::parse(text.as_bytes());
        let line = match distance {
            Some(distance) => line.measured(*distance),
            None => line,
        };
        whole.fold_line(processor.map_line(&Some(line)).unwrap());
    }
    whole
}

fn kills(weapon: &str, player: &str, count: usize) -> Vec<String> {
    (0..count).map(|_| format!("{},{}", weapon, player)).collect()
}

fn gathered_from(lines: &[String]) -> PartialAggregate {
    let pairs: Vec<(&str, Option<u64>)> = lines.iter().map(|text| (text.as_str(), None)).collect();
    gathered(&pairs)
}

fn weapon_rows(top: &[RankedWeaponEntry]) -> Vec<(String, u64, Option<u64>)> {
    top.iter()
        .map(|entry| {
            (
                String::from_utf8(entry.name.clone()).unwrap(),
                entry.deaths_percentage,
                entry.average_distance,
            )
        })
        .collect()
}

fn player_rows(top: &[RankedPlayerEntry]) -> Vec<(String, u64, Vec<(String, u64)>)> {
    top.iter()
        .map(|entry| {
            (
                String::from_utf8(entry.name.clone()).unwrap(),
                entry.deaths,
                entry
                    .weapons_percentage
                    .iter()
                    .map(|share| (String::from_utf8(share.name.clone()).unwrap(), share.percentage))
                    .collect(),
            )
        })
        .collect()
}

#[test]
fn shares_are_rounded_to_hundredths_of_a_percent() {
    assert_eq!(calculate_percentage(1, 1), 10_000);
    assert_eq!(calculate_percentage(1, 2), 5_000);
    assert_eq!(calculate_percentage(1, 3), 3_333);
    assert_eq!(calculate_percentage(2, 3), 6_667);
    assert_eq!(calculate_percentage(1, 8), 1_250);
    assert_eq!(calculate_percentage(1, 7), 1_429);
    assert_eq!(calculate_percentage(0, 5), 0);
    assert_eq!(calculate_percentage(u64::MAX, u64::MAX), 10_000);
    assert_eq!(calculate_percentage(u64::MAX / 3, u64::MAX), 3_333);
}

#[test]
fn a_share_half_way_between_two_hundredths_goes_up() {
    assert_eq!(calculate_percentage(1, 20_000), 1);
    assert_eq!(calculate_percentage(3, 20_000), 2);
    assert_eq!(calculate_percentage(1, 20_001), 0);
    assert_eq!(calculate_percentage(1, 19_999), 1);
    assert_eq!(calculate_percentage(5, 16), 3_125);
    assert_eq!(calculate_percentage(1, 32), 313);
}

#[test]
fn nothing_has_a_share_in_nothing() {
    assert_eq!(calculate_percentage(0, 0), 0);
    let calculator = TopCalculator::new();
    let empty = PartialAggregate::empty();
    let (players, weapons) = calculator.calculate_and_sort_results(&empty.weapons, &empty.players);
    assert!(players.is_empty());
    assert!(weapons.is_empty());
    assert_eq!(calculate_total_deaths(&empty.weapons), 0);
}

#[test]
fn the_mean_distance_is_rounded_to_hundredths() {
    assert_eq!(calculate_average_distance(&WeaponStats::new(0, 0, 0)), None);
    assert_eq!(calculate_average_distance(&WeaponStats::new(0, 0, 7)), None);
    assert_eq!(calculate_average_distance(&WeaponStats::new(0, 3, 3)), Some(0));
    assert_eq!(calculate_average_distance(&WeaponStats::new(5_000_000, 1, 1)), Some(500));
    assert_eq!(calculate_average_distance(&WeaponStats::new(8_605_551, 2, 2)), Some(430));
    assert_eq!(calculate_average_distance(&WeaponStats::new(10_000, 2, 2)), Some(1));
    assert_eq!(calculate_average_distance(&WeaponStats::new(9_999, 2, 2)), Some(0));
    assert_eq!(calculate_average_distance(&WeaponStats::new(1_234_567, 1, 4)), Some(123));
    assert_eq!(calculate_average_distance(&WeaponStats::new(1_235_000, 1, 4)), Some(124));
    assert_eq!(calculate_average_distance(&WeaponStats::new(1_234_999, 1, 4)), Some(123));
    assert_eq!(
        calculate_average_distance(&WeaponStats::new(u64::MAX as u128 * 2, 2, 2)),
        Some(1_844_674_407_370_955)
    );
}

#[test]
fn two_kills_with_the_same_weapon_are_ranked() {
    let whole = gathered(&[
        ("AK47,p1,,1,1,,,,,,4,5", Some(5_000_000)),
        ("AK47,p2,,2,2,,,,,,4,5", Some(3_605_551)),
    ]);
    let calculator = TopCalculator::new();
    let (players, weapons) = calculator.calculate_and_sort_results(&whole.weapons, &whole.players);
    assert_eq!(weapon_rows(&weapons), vec![("AK47".to_string(), 10_000, Some(430))]);
    assert_eq!(
        player_rows(&players),
        vec![
            ("p1".to_string(), 1, vec![("AK47".to_string(), 10_000)]),
            ("p2".to_string(), 1, vec![("AK47".to_string(), 10_000)]),
        ]
    );
}

#[test]
fn a_weapon_without_a_known_distance_has_no_mean_distance() {
    let whole = gathered(&[("AK47,ann", None), ("Knife,ann,,1,1,,,,,,1,2", Some(1_000_000))]);
    let top = TopCalculator::new().calculate_top_weapons(&whole.weapons);
    assert_eq!(
        weapon_rows(&top),
        vec![("AK47".to_string(), 5_000, None), ("Knife".to_string(), 5_000, Some(100))]
    );
}

#[test]
fn weapons_are_ranked_by_kills_and_then_by_name() {
    let mut lines = kills("Knife", "a", 3);
    lines.extend(kills("AK47", "a", 5));
    lines.extend(kills("M416", "b", 3));
    lines.extend(kills("Pan", "b", 1));
    lines.extend(kills("AWM", "c", 3));
    lines.extend(kills("pan", "c", 1));
    let whole = gathered_from(&lines);
    let top = TopCalculator::new().calculate_top_weapons(&whole.weapons);
    assert_eq!(
        weapon_rows(&top),
        vec![
            ("AK47".to_string(), 3_125, None),
            ("AWM".to_string(), 1_875, None),
            ("Knife".to_string(), 1_875, None),
            ("M416".to_string(), 1_875, None),
            ("Pan".to_string(), 625, None),
            ("pan".to_string(), 625, None),
        ]
    );
    assert_eq!(calculate_total_deaths(&whole.weapons), 16);
}

#[test]
fn no_more_than_ten_weapons_are_ranked() {
    let mut lines: Vec<String> = Vec::new();
    for i in 0..13usize {
        lines.extend(kills(&format!("w{:02}", i), "p", 1 + i % 4));
    }
    let whole = gathered_from(&lines);
    let top = TopCalculator::new().calculate_top_weapons(&whole.weapons);
    assert_eq!(top.len(), 10);
    let names: Vec<String> = weapon_rows(&top).into_iter().map(|row| row.0).collect();
    assert_eq!(names, vec!["w03", "w07", "w11", "w02", "w06", "w10", "w01", "w05", "w09", "w00"]);
    let total: u64 = (0..13u64).map(|i| 1 + i % 4).sum();
    assert_eq!(top[0].deaths_percentage, (2 * 4 * 10_000 + total) / (2 * total));
    assert_eq!(top[9].deaths_percentage, (2 * 10_000 + total) / (2 * total));
    assert_eq!(sort_weapons_by_kills(&whole.weapons, 3).len(), 3);
    assert_eq!(sort_weapons_by_kills(&whole.weapons, 50).len(), 13);
    assert_eq!(sort_weapons_by_kills(&whole.weapons, 0).len(), 0);
}

#[test]
fn players_are_ranked_with_their_three_best_weapons() {
    let mut lines = kills("AK47", "ann", 4);
    lines.extend(kills("Knife", "ann", 1));
    lines.extend(kills("M416", "ann", 2));
    lines.extend(kills("Pan", "ann", 2));
    lines.extend(kills("AWM", "ann", 1));
    lines.extend(kills("AK47", "bob", 10));
    lines.extend(kills("Pan", "cy", 5));
    lines.extend(kills("AK47", "cy", 5));
    lines.extend(kills("Knife", "", 50));
    let whole = gathered_from(&lines);
    let top = TopCalculator::new().calculate_top_killers(&whole.players);
    assert_eq!(
        player_rows(&top),
        vec![
            (
                "ann".to_string(),
                10,
                vec![
                    ("AK47".to_string(), 4_000),
                    ("M416".to_string(), 2_000),
                    ("Pan".to_string(), 2_000),
                ]
            ),
            ("bob".to_string(), 10, vec![("AK47".to_string(), 10_000)]),
            ("cy".to_string(), 10, vec![("AK47".to_string(), 5_000), ("Pan".to_string(), 5_000)]),
        ]
    );
}

#[test]
fn no_more_than_ten_players_are_ranked() {
    let mut lines: Vec<String> = Vec::new();
    for i in 0..25usize {
        lines.extend(kills("AK47", &format!("p{:02}", i), 1 + (i * 7) % 5));
    }
    let whole = gathered_from(&lines);
    let top = TopCalculator::new().calculate_top_killers(&whole.players);
    assert_eq!(top.len(), 10);
    let rows = player_rows(&top);
    let names: Vec<&str> = rows.iter().map(|row| row.0.as_str()).collect();
    assert_eq!(names, vec!["p02", "p07", "p12", "p17", "p22", "p04", "p09", "p14", "p19", "p24"]);
    let deaths: Vec<u64> = rows.iter().map(|row| row.1).collect();
    assert_eq!(deaths, vec![5, 5, 5, 5, 5, 4, 4, 4, 4, 4]);
    assert!(rows.iter().all(|row| row.2 == vec![("AK47".to_string(), 10_000)]));
    assert_eq!(sort_players_by_kills(&whole.players, 10), vec![2, 7, 12, 17, 22, 4, 9, 14, 19, 24]);
}

#[test]
fn the_ranking_does_not_depend_on_how_the_lines_were_gathered() {
    let mut lines = kills("Knife", "a", 3);
    lines.extend(kills("AK47", "b", 3));
    lines.extend(kills("M416", "c", 2));
    lines.extend(kills("Pan", "a", 4));
    let forwards = gathered_from(&lines);
    lines.reverse();
    let backwards = gathered_from(&lines);
    let calculator = TopCalculator::new();
    let first = calculator.calculate_and_sort_results(&forwards.weapons, &forwards.players);
    let again = calculator.calculate_and_sort_results(&forwards.weapons, &forwards.players);
    let other = calculator.calculate_and_sort_results(&backwards.weapons, &backwards.players);
    assert_eq!(weapon_rows(&first.1), weapon_rows(&again.1));
    assert_eq!(player_rows(&first.0), player_rows(&again.0));
    assert_eq!(weapon_rows(&first.1), weapon_rows(&other.1));
    assert_eq!(player_rows(&first.0), player_rows(&other.0));
    assert_eq!(
        weapon_rows(&first.1).into_iter().map(|row| row.0).collect::<Vec<_>>(),
        vec!["Pan", "AK47", "Knife", "M416"]
    );
}

#[test]
fn a_players_weapons_are_ranked_by_count_and_then_by_name() {
    let mut counts: Table<u64> = Table::new();
    counts.upsert(b"Pan".to_vec(), 2);
    counts.upsert(b"AK47".to_vec(), 2);
    counts.upsert(b"Knife".to_vec(), 3);
    counts.upsert(b"AWM".to_vec(), 1);
    let shares = calculate_top_weapons_for_player(&counts, 8);
    let rows: Vec<(String, u64)> = shares
        .iter()
        .map(|share| (String::from_utf8(share.name.clone()).unwrap(), share.percentage))
        .collect();
    assert_eq!(
        rows,
        vec![
            ("Knife".to_string(), 3_750),
            ("AK47".to_string(), 2_500),
            ("Pan".to_string(), 2_500),
        ]
    );
    assert_eq!(counts.ranking(2), vec![2, 0]);
    assert!(calculate_top_weapons_for_player(&Table::new(), 0).is_empty());
}
