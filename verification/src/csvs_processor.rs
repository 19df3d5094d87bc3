//! From lines to one aggregate: what a line adds, and the merge of all lines of all files.
//!
//! A line is a list of comma-separated fields. The first is the weapon, the second the
//! killer's name, and four more are the coordinates of killer and victim. Where all four
//! are written as numbers, the distance between the two can be measured. The caller does
//! that, being the one who works with fractions, and hands the distance in with the line, in
//! millionths of a map unit.

use crate::aggregate::{lemma_merged_all_concat, merged_all, nothing, AggregateModel, PartialAggregate};
use crate::coordinate::{check_number, is_number};
use crate::table::{tallied, Table};
use crate::tally::Tally;
use crate::text::{split, split_fields, texts};
use crate::parallel::{par_map, par_reduce, total_attributed, total_kills, views};
use crate::weapon_stats::{consistent, sum_of, StatsModel, WeaponStats};
use vstd::prelude::*;
use vstd::slice::slice_to_vec;

verus! {

/// The position of the killer's name among the fields of a line.
pub const KILLER_NAME: usize = 1;

/// The position of the killer's first coordinate.
pub const KILLER_POSITION_X: usize = 3;

/// The position of the killer's second coordinate.
pub const KILLER_POSITION_Y: usize = 4;

/// The position of the victim's first coordinate.
pub const VICTIM_POSITION_X: usize = 10;

/// The position of the victim's second coordinate.
pub const VICTIM_POSITION_Y: usize = 11;

/// Statistics by weapon.
pub type NumberOfDeathsAndDistances = Table<WeaponStats>;

/// Kills by player and weapon.
pub type PlayersWeapons = Table<Table<u64>>;

/// What one line adds.
pub type MappedItem = PartialAggregate;

/// What many lines add together.
pub type ReducedItem = PartialAggregate;

/// What all lines of all files add together.
pub type ProcessedData = PartialAggregate;

/// A line that was read: its fields, and the distance between killer and victim where the
/// caller could measure it.
pub struct Line {
    /// The fields, in order.
    pub fields: Vec<Vec<u8>>,
    /// The distance in millionths of a map unit, if all four coordinates are numbers.
    pub distance: Option<u64>,
}

/// What reading a line gave: the line, or nothing where it could not be read.
pub type LineRead = Option<Line>;

/// What opening a file gave: its lines, or nothing where it could not be opened.
pub type FileRead = Option<Vec<LineRead>>;

/// The four coordinate fields of a line, as they were written.
pub struct Coordinates<'a> {
    pub killer_x: &'a Vec<u8>,
    pub killer_y: &'a Vec<u8>,
    pub victim_x: &'a Vec<u8>,
    pub victim_y: &'a Vec<u8>,
}

/// The line names a killer: it has a second field, and that field is not empty.
pub open spec fn has_killer(fields: Seq<Seq<u8>>) -> bool {
    fields.len() > KILLER_NAME && fields[KILLER_NAME as int].len() > 0
}

/// The line has all four coordinate fields.
pub open spec fn has_coordinates(fields: Seq<Seq<u8>>) -> bool {
    fields.len() > VICTIM_POSITION_Y
}

/// The distance of the line can be measured: it has all four coordinate fields, and each
/// is written as a number.
pub open spec fn measurable(fields: Seq<Seq<u8>>) -> bool {
    &&& has_coordinates(fields)
    &&& is_number(fields[KILLER_POSITION_X as int])
    &&& is_number(fields[KILLER_POSITION_Y as int])
    &&& is_number(fields[VICTIM_POSITION_X as int])
    &&& is_number(fields[VICTIM_POSITION_Y as int])
}

/// What a line adds to the distance counts of its weapon: one kill with a known distance if
/// the distance can be measured and was measured, else nothing.
pub open spec fn distance_part(fields: Seq<Seq<u8>>, distance: Option<u64>) -> StatsModel {
    match distance {
        Some(measured) if measurable(fields) => StatsModel {
            total_kills: 0,
            kills_with_valid_distance: 1,
            distance_sum: measured as nat,
        },
        _ => StatsModel { total_kills: 0, kills_with_valid_distance: 0, distance_sum: 0 },
    }
}

/// One kill, with nothing known of its distance.
pub open spec fn one_kill() -> StatsModel {
    StatsModel { total_kills: 1, kills_with_valid_distance: 0, distance_sum: 0 }
}

/// What a line adds: nothing if it has no field at all; else one kill for the weapon named
/// by the first field, with its distance where that is known, and one kill with that weapon
/// for the killer if the line names one.
pub open spec fn line_update(fields: Seq<Seq<u8>>, distance: Option<u64>) -> AggregateModel {
    if fields.len() == 0 {
        nothing()
    } else {
        AggregateModel {
            weapons: Map::empty().insert(
                fields[0],
                sum_of(distance_part(fields, distance), one_kill()),
            ),
            players: if has_killer(fields) {
                Map::empty().insert(
                    fields[KILLER_NAME as int],
                    Map::empty().insert(fields[0], 1nat),
                )
            } else {
                Map::empty()
            },
        }
    }
}

/// The read counts: the line was read, and it has a first field.
pub open spec fn counts(read: LineRead) -> bool {
    match read {
        Some(line) => line.fields@.len() > 0,
        None => false,
    }
}

/// What a read adds: the update of the line, or nothing where the line could not be read.
pub open spec fn read_update(read: LineRead) -> AggregateModel {
    match read {
        Some(line) => line_update(texts(line.fields@), line.distance),
        None => nothing(),
    }
}

/// The number of kills that a read adds: one if it counts.
pub open spec fn read_kills(read: LineRead) -> nat {
    if counts(read) {
        1
    } else {
        0
    }
}

/// The number of kills that a read adds for a player: one for a line that names a killer.
pub open spec fn read_attributed(read: LineRead) -> nat {
    match read {
        Some(line) if has_killer(texts(line.fields@)) => 1,
        _ => 0,
    }
}

/// The updates of the reads that count, in order.
pub open spec fn read_updates(reads: Seq<LineRead>) -> Seq<AggregateModel>
    decreases reads.len(),
{
    if reads.len() == 0 {
        Seq::empty()
    } else if counts(reads.last()) {
        read_updates(reads.drop_last()).push(read_update(reads.last()))
    } else {
        read_updates(reads.drop_last())
    }
}

/// The number of kills that a list of reads adds.
pub open spec fn kills_read(reads: Seq<LineRead>) -> nat
    decreases reads.len(),
{
    if reads.len() == 0 {
        0
    } else {
        kills_read(reads.drop_last()) + read_kills(reads.last())
    }
}

/// The number of kills that a list of reads adds for players.
pub open spec fn attributed_read(reads: Seq<LineRead>) -> nat
    decreases reads.len(),
{
    if reads.len() == 0 {
        0
    } else {
        attributed_read(reads.drop_last()) + read_attributed(reads.last())
    }
}

/// The reads of all files that could be opened, file after file.
pub open spec fn all_reads(files: Seq<FileRead>) -> Seq<LineRead>
    decreases files.len(),
{
    if files.len() == 0 {
        Seq::empty()
    } else {
        match files.last() {
            Some(lines) => all_reads(files.drop_last()) + lines@,
            None => all_reads(files.drop_last()),
        }
    }
}

/// Whether the distance of a line can be measured.
pub fn can_measure(fields: &Vec<Vec<u8>>) -> (found: bool)
    ensures
        found == measurable(texts(fields@)),
{
    fields.len() > VICTIM_POSITION_Y && check_number(fields[KILLER_POSITION_X].as_slice())
        && check_number(fields[KILLER_POSITION_Y].as_slice()) && check_number(
        fields[VICTIM_POSITION_X].as_slice(),
    ) && check_number(fields[VICTIM_POSITION_Y].as_slice())
}

impl Line {
    /// Splits the text of a line into its fields. No distance is known yet.
    pub fn parse(text: &[u8]) -> (line: Line)
        ensures
            texts(line.fields@) == split(text@),
            line.fields@.len() >= 1,
            line.distance.is_none(),
    {
        Line { fields: split_fields(text), distance: None }
    }

    /// The four coordinate fields, if the line has them all and each is written as a number.
    pub fn coordinates(&self) -> (found: Option<Coordinates<'_>>)
        ensures
            found.is_some() == measurable(texts(self.fields@)),
            found matches Some(at) ==> {
                &&& at.killer_x@ == self.fields@[KILLER_POSITION_X as int]@
                &&& at.killer_y@ == self.fields@[KILLER_POSITION_Y as int]@
                &&& at.victim_x@ == self.fields@[VICTIM_POSITION_X as int]@
                &&& at.victim_y@ == self.fields@[VICTIM_POSITION_Y as int]@
            },
    {
        if can_measure(&self.fields) {
            Some(
                Coordinates {
                    killer_x: &self.fields[KILLER_POSITION_X],
                    killer_y: &self.fields[KILLER_POSITION_Y],
                    victim_x: &self.fields[VICTIM_POSITION_X],
                    victim_y: &self.fields[VICTIM_POSITION_Y],
                },
            )
        } else {
            None
        }
    }

    /// The same line with the distance that was measured between killer and victim.
    pub fn measured(self, distance: u64) -> (line: Line)
        ensures
            line.fields == self.fields,
            line.distance == Some(distance),
    {
        Line { fields: self.fields, distance: Some(distance) }
    }
}

/// Turns lines into aggregates and merges them.
pub struct Processor {}

impl Processor {
    /// A processor. It keeps nothing between calls.
    pub fn new() -> (processor: Self) {
        Processor {  }
    }

    /// Counts the distance of a line into the statistics of its weapon, if the line has its
    /// four coordinate fields, each is written as a number, and the distance was measured.
    pub fn process_murder_coordinates(
        &self,
        fields: &Vec<Vec<u8>>,
        distance: Option<u64>,
        weapon_stats: &mut WeaponStats,
    )
        requires
            old(weapon_stats)@.distance_sum + distance_part(texts(fields@), distance).distance_sum
                <= u128::MAX,
            old(weapon_stats)@.kills_with_valid_distance + distance_part(
                texts(fields@),
                distance,
            ).kills_with_valid_distance <= u64::MAX,
        ensures
            final(weapon_stats)@ == sum_of(
                old(weapon_stats)@,
                distance_part(texts(fields@), distance),
            ),
    {
        if can_measure(fields) {
            if let Some(measured) = distance {
                weapon_stats.set_death_distance(measured as u128);
                weapon_stats.set_number_of_kills_with_valid_distance(1);
            }
        }
    }

    /// Counts the kill of a line under its weapon, together with the statistics gathered
    /// from the line so far. A line without any field counts nothing.
    pub fn process_weapon(
        &self,
        fields: &Vec<Vec<u8>>,
        weapon_stats: WeaponStats,
        weapons: &mut NumberOfDeathsAndDistances,
    )
        requires
            old(weapons).wf(),
            fields@.len() > 0 ==> consistent(sum_of(weapon_stats@, one_kill())),
            fields@.len() > 0 ==> old(weapons).weight() + weapon_stats@.total_kills + 1 <= u64::MAX,
        ensures
            final(weapons).wf(),
            fields@.len() == 0 ==> final(weapons)@ == old(weapons)@ && final(weapons).weight()
                == old(weapons).weight(),
            fields@.len() > 0 ==> final(weapons)@ == tallied::<WeaponStats>(
                old(weapons)@,
                fields@[0]@,
                sum_of(weapon_stats@, one_kill()),
            ) && final(weapons).weight() == old(weapons).weight() + weapon_stats@.total_kills + 1,
    {
        if fields.len() > 0 {
            let mut weapon_stats = weapon_stats;
            weapon_stats.set_total_kills_caused_by_weapon(1);
            weapons.upsert(slice_to_vec(fields[0].as_slice()), weapon_stats);
        }
    }

    /// Counts the kill of a line for its killer, under the weapon of the line. A line that
    /// names no killer, or whose killer's name is empty, counts nothing.
    pub fn process_player(&self, fields: &Vec<Vec<u8>>, player_kills: &mut PlayersWeapons)
        requires
            old(player_kills).wf(),
            has_killer(texts(fields@)) ==> old(player_kills).weight() < u64::MAX,
        ensures
            final(player_kills).wf(),
            !has_killer(texts(fields@)) ==> final(player_kills)@ == old(player_kills)@
                && final(player_kills).weight() == old(player_kills).weight(),
            has_killer(texts(fields@)) ==> final(player_kills)@ == tallied::<Table<u64>>(
                old(player_kills)@,
                fields@[KILLER_NAME as int]@,
                Map::empty().insert(fields@[0]@, 1nat),
            ) && final(player_kills).weight() == old(player_kills).weight() + 1,
    {
        if fields.len() > KILLER_NAME {
            if fields[KILLER_NAME].len() > 0 {
                let mut with_weapon: Table<u64> = Table::new();
                with_weapon.upsert(slice_to_vec(fields[0].as_slice()), 1);
                player_kills.upsert(slice_to_vec(fields[KILLER_NAME].as_slice()), with_weapon);
            }
        }
    }

    /// What one read adds: the aggregate of its line alone, and nothing for a line that
    /// could not be read or that has no field at all.
    pub fn map_line(&self, read: &LineRead) -> (item: Option<MappedItem>)
        ensures
            item.is_some() == counts(*read),
            item matches Some(update) ==> mapped_from(update, *read),
    {
        match read {
            None => None,
            Some(line) => {
                if line.fields.len() == 0 {
                    return None;
                }
                let mut weapons: NumberOfDeathsAndDistances = Table::new();
                let mut player_kills: PlayersWeapons = Table::new();
                let mut weapon_stats = WeaponStats::new(0, 0, 0);
                self.process_murder_coordinates(&line.fields, line.distance, &mut weapon_stats);
                assert(weapon_stats@.distance_sum <= weapon_stats@.kills_with_valid_distance
                    * u64::MAX) by (nonlinear_arith)
                    requires
                        weapon_stats@.kills_with_valid_distance == 0 ==> weapon_stats@.distance_sum
                            == 0,
                        weapon_stats@.kills_with_valid_distance != 0
                            ==> weapon_stats@.kills_with_valid_distance == 1
                            && weapon_stats@.distance_sum <= u64::MAX,
                ;
                self.process_weapon(&line.fields, weapon_stats, &mut weapons);
                self.process_player(&line.fields, &mut player_kills);
                let update = PartialAggregate { weapons, players: player_kills };
                proof {
                    update.weapons.lemma_weight_counted();
                    update.players.lemma_weight_counted();
                    let fields = texts(line.fields@);
                    assert(update@.weapons =~= line_update(fields, line.distance).weapons);
                    assert(update@.players =~= line_update(fields, line.distance).players);
                }
                Some(update)
            },
        }
    }

    /// What each of the reads that count adds, in the order of the lines. Lines that could
    /// not be read, and lines without any field, are left out.
    pub fn map_lines(&self, reads: &Vec<LineRead>) -> (items: Vec<MappedItem>)
        ensures
            views(items@) == read_updates(reads@),
            forall|i: int| 0 <= i < items.len() ==> (#[trigger] items[i]).wf(),
            total_kills(items@) == kills_read(reads@),
            total_attributed(items@) == attributed_read(reads@),
    {
        let mapper = |read: &LineRead| -> (item: Option<MappedItem>)
            ensures
                item.is_some() == counts(*read),
                item matches Some(update) ==> mapped_from(update, *read),
            { self.map_line(read) };
        let mut mapped: Vec<Option<MappedItem>> = par_map(reads, mapper);
        let ghost results = mapped@;
        let mut items: Vec<MappedItem> = Vec::new();
        let mut i: usize = 0;
        assert(reads@.take(0) =~= Seq::<LineRead>::empty());
        assert(views(items@) =~= read_updates(reads@.take(0)));
        while i < mapped.len()
            invariant
                i <= mapped.len(),
                mapped.len() == reads.len(),
                results.len() == reads.len(),
                forall|j: int| i <= j < mapped.len() ==> mapped@[j] == results[j],
                forall|j: int|
                    0 <= j < reads.len() ==> {
                        &&& (#[trigger] results[j]).is_some() == counts(reads@[j])
                        &&& results[j] matches Some(update) ==> mapped_from(update, reads@[j])
                    },
                views(items@) == read_updates(reads@.take(i as int)),
                forall|j: int| 0 <= j < items.len() ==> (#[trigger] items[j]).wf(),
                total_kills(items@) == kills_read(reads@.take(i as int)),
                total_attributed(items@) == attributed_read(reads@.take(i as int)),
            decreases mapped.len() - i,
        {
            proof {
                assert(reads@.take(i + 1).drop_last() =~= reads@.take(i as int));
                assert(results[i as int].is_some() == counts(reads@[i as int]));
            }
            let ghost before = items@;
            let taken = mapped[i].take();
            if let Some(update) = taken {
                items.push(update);
                proof {
                    assert(items@.drop_last() =~= before);
                    assert(views(items@) =~= views(before).push(update@));
                }
            }
            i += 1;
        }
        assert(reads@.take(i as int) =~= reads@);
        items
    }

    /// Merges what the lines add into one aggregate.
    pub fn reduce_mapped_iter(&self, items: Vec<MappedItem>) -> (whole: ReducedItem)
        requires
            forall|i: int| 0 <= i < items.len() ==> (#[trigger] items[i]).wf(),
            total_kills(items@) <= u64::MAX,
        ensures
            whole.wf(),
            whole@ == merged_all(views(items@)),
            whole.kills() == total_kills(items@),
            whole.attributed() == total_attributed(items@),
    {
        par_reduce(items)
    }

    /// The aggregate of one file: of its lines that were read, or of nothing where the file
    /// could not be opened.
    pub fn process_file(&self, file: &FileRead) -> (whole: ReducedItem)
        ensures
            reduced_from(whole, *file),
    {
        match file {
            None => PartialAggregate::empty(),
            Some(reads) => {
                let items = self.map_lines(reads);
                proof {
                    lemma_kills_read_bounds(reads@);
                    assert(reads@.len() == reads.len());
                }
                self.reduce_mapped_iter(items)
            },
        }
    }

    /// The aggregate of all files: every line that was read, of every file that was opened,
    /// is counted in it once, whatever the threads made of the work.
    pub fn process_csvs(&self, files: &Vec<FileRead>) -> (whole: ProcessedData)
        requires
            all_reads(files@).len() <= u64::MAX,
        ensures
            whole.wf(),
            whole@ == merged_all(read_updates(all_reads(files@))),
            whole.kills() == kills_read(all_reads(files@)),
            whole.attributed() == attributed_read(all_reads(files@)),
    {
        let reducer = |file: &FileRead| -> (whole: ReducedItem)
            ensures
                reduced_from(whole, *file),
            { self.process_file(file) };
        let per_file: Vec<ReducedItem> = par_map(files, reducer);
        proof {
            lemma_files_together(files@, per_file@);
            lemma_kills_read_bounds(all_reads(files@));
        }
        self.reduce_mapped_iter(per_file)
    }
}

/// `update` is what the read adds: the aggregate of that line alone, with its one kill.
pub open spec fn mapped_from(update: PartialAggregate, read: LineRead) -> bool {
    &&& update.wf()
    &&& update@ == read_update(read)
    &&& update.kills() == read_kills(read)
    &&& update.attributed() == read_attributed(read)
}

/// `whole` is the aggregate of the file: what its reads add, merged in their order.
pub open spec fn reduced_from(whole: PartialAggregate, file: FileRead) -> bool {
    &&& whole.wf()
    &&& whole@ == merged_all(read_updates(file_reads(file)))
    &&& whole.kills() == kills_read(file_reads(file))
    &&& whole.attributed() == attributed_read(file_reads(file))
}

/// The reads of one file: its lines, or none where it could not be opened.
pub open spec fn file_reads(file: FileRead) -> Seq<LineRead> {
    match file {
        Some(reads) => reads@,
        None => Seq::empty(),
    }
}

/// The lines that name a killer are some of the lines with a weapon, and those are some of
/// the lines.
pub proof fn lemma_kills_read_bounds(reads: Seq<LineRead>)
    ensures
        attributed_read(reads) <= kills_read(reads) <= reads.len(),
    decreases reads.len(),
{
    if reads.len() > 0 {
        lemma_kills_read_bounds(reads.drop_last());
    }
}

/// The updates and kills of two lists of reads, one after the other, are those of the first
/// and then those of the second.
pub proof fn lemma_reads_concat(first: Seq<LineRead>, second: Seq<LineRead>)
    ensures
        read_updates(first + second) == read_updates(first) + read_updates(second),
        kills_read(first + second) == kills_read(first) + kills_read(second),
        attributed_read(first + second) == attributed_read(first) + attributed_read(second),
    decreases second.len(),
{
    if second.len() == 0 {
        assert(first + second =~= first);
        assert(read_updates(first) + read_updates(second) =~= read_updates(first));
    } else {
        let whole = first + second;
        assert(whole.drop_last() =~= first + second.drop_last());
        lemma_reads_concat(first, second.drop_last());
        if counts(second.last()) {
            assert(read_updates(whole) =~= read_updates(first) + read_updates(second));
        }
    }
}

/// The read names a weapon: its line has a first field, and that field is not empty.
pub open spec fn names_weapon(read: LineRead) -> bool {
    match read {
        Some(line) => line.fields@.len() > 0 && line.fields@[0]@.len() > 0,
        None => false,
    }
}

/// The number of reads that name a weapon.
pub open spec fn with_weapon(reads: Seq<LineRead>) -> nat
    decreases reads.len(),
{
    if reads.len() == 0 {
        0
    } else {
        with_weapon(reads.drop_last()) + if names_weapon(reads.last()) {
            1nat
        } else {
            0nat
        }
    }
}

/// Conservation: where no line has an empty first field, as many kills are counted as
/// there are lines that name a weapon. (A line whose first field is empty counts as a kill
/// with the weapon of the empty name.)
pub proof fn lemma_conservation(reads: Seq<LineRead>)
    requires
        forall|i: int|
            0 <= i < reads.len() ==> ((#[trigger] reads[i]) matches Some(line) ==> line.fields@.len()
                == 0 || line.fields@[0]@.len() > 0),
    ensures
        kills_read(reads) == with_weapon(reads),
    decreases reads.len(),
{
    if reads.len() > 0 {
        let shorter = reads.drop_last();
        assert forall|i: int| 0 <= i < shorter.len() implies ((#[trigger] shorter[i]) matches Some(
            line,
        ) ==> line.fields@.len() == 0 || line.fields@[0]@.len() > 0) by {
            assert(shorter[i] == reads[i]);
        }
        lemma_conservation(shorter);
        assert(reads.last() == reads[reads.len() - 1]);
    }
}

/// Aggregates made file by file merge to the aggregate of all reads of all files.
proof fn lemma_files_together(files: Seq<FileRead>, per_file: Seq<PartialAggregate>)
    requires
        per_file.len() == files.len(),
        forall|i: int| 0 <= i < files.len() ==> reduced_from(#[trigger] per_file[i], files[i]),
    ensures
        merged_all(views(per_file)) == merged_all(read_updates(all_reads(files))),
        total_kills(per_file) == kills_read(all_reads(files)),
        total_attributed(per_file) == attributed_read(all_reads(files)),
    decreases files.len(),
{
    if files.len() > 0 {
        let last = file_reads(files.last());
        let before = all_reads(files.drop_last());
        lemma_files_together(files.drop_last(), per_file.drop_last());
        assert(views(per_file).drop_last() =~= views(per_file.drop_last()));
        assert(all_reads(files) =~= before + last);
        lemma_reads_concat(before, last);
        lemma_merged_all_concat(read_updates(before), read_updates(last));
    }
}

} // verus!
