//! Assembling a replacement journal: only selected record lines, byte for
//! byte, in file order.
use vstd::prelude::*;
use vstd::slice::*;
use vstd::string::*;
use crate::error::{refusal, Error};
use crate::journal::scan;
use crate::journal::scan::{
    LineView, RawJournal, RawJournalLineClassification, CARRIAGE_RETURN, LINE_FEED,
};
use crate::text;
use crate::text::push_decimal;

verus! {

/// What is wrong with one selected index.
pub enum IndexFault {
    /// The journal has no such line.
    Nonexistent { index: nat },
    /// The line is no record.
    NonRecord { index: nat },
    /// The line was selected before.
    Repeated { index: nat },
}

impl IndexFault {
    /// What an operator reads.
    pub open spec fn text(self) -> Seq<char> {
        match self {
            IndexFault::Nonexistent { index } => "journal cleanup selected nonexistent line index "@
                + text::decimal(index),
            IndexFault::NonRecord { index } => "journal cleanup selected non-record line index "@
                + text::decimal(index),
            IndexFault::Repeated { index } => "journal cleanup selected line index "@
                + text::decimal(index) + " more than once"@,
        }
    }
}

/// What is wrong with the selected index at a position.
pub open spec fn fault_at(
    lines: Seq<LineView>,
    indexes: Seq<usize>,
    position: int,
) -> Option<IndexFault> {
    let index = indexes[position];
    if index >= lines.len() {
        Some(IndexFault::Nonexistent { index: index as nat })
    } else if !(lines[index as int].class is Record) {
        Some(IndexFault::NonRecord { index: index as nat })
    } else if indexes.take(position).contains(index) {
        Some(IndexFault::Repeated { index: index as nat })
    } else {
        None
    }
}

/// Whether a position is the first with something wrong.
pub open spec fn is_first_fault(lines: Seq<LineView>, indexes: Seq<usize>, position: int) -> bool {
    &&& 0 <= position < indexes.len()
    &&& fault_at(lines, indexes, position) is Some
    &&& forall|i: int| 0 <= i < position ==> #[trigger] fault_at(lines, indexes, i) is None
}

/// Whether the flags mark exactly the selected lines.
pub open spec fn marks(lines: Seq<LineView>, indexes: Seq<usize>, kept: Seq<bool>) -> bool {
    &&& kept.len() == lines.len()
    &&& forall|i: int| 0 <= i < kept.len() ==> #[trigger] kept[i] == indexes.contains(i as usize)
}

/// The lines that the flags mark, in file order.
pub open spec fn kept_lines(lines: Seq<LineView>, kept: Seq<bool>) -> Seq<LineView>
    decreases lines.len(),
{
    if lines.len() == 0 {
        Seq::empty()
    } else {
        let earlier = kept_lines(lines.drop_last(), kept);
        if kept[lines.len() - 1] {
            earlier.push(lines.last())
        } else {
            earlier
        }
    }
}

/// Whether the bytes end with a line terminator.
pub open spec fn is_terminated(bytes: Seq<u8>) -> bool {
    bytes.len() > 0 && (bytes.last() == LINE_FEED || bytes.last() == CARRIAGE_RETURN)
}

/// The bytes, with one line feed more where they lack a terminator.
pub open spec fn terminated(bytes: Seq<u8>) -> Seq<u8> {
    if is_terminated(bytes) {
        bytes
    } else {
        bytes.push(LINE_FEED)
    }
}

/// The replacement journal: the marked lines, terminated.
pub open spec fn replacement(lines: Seq<LineView>, kept: Seq<bool>) -> Seq<u8> {
    terminated(scan::concatenated(kept_lines(lines, kept)))
}

/// Checks a selection of lines: at least one, all of them records, none
/// twice. Returns one flag per line.
pub fn validate_retained_indexes(snapshot: &RawJournal, indexes: &[usize]) -> (validated: Result<
    Vec<bool>,
    Error,
>)
    ensures
        match validated {
            Ok(kept) => {
                &&& indexes@.len() > 0
                &&& forall|i: int|
                    0 <= i < indexes@.len() ==> #[trigger] fault_at(
                        snapshot.listed(),
                        indexes@,
                        i,
                    ) is None
                &&& marks(snapshot.listed(), indexes@, kept@)
            },
            Err(error) => {
                ||| indexes@.len() == 0 && error.refuses(
                    "journal cleanup would remove every syntactic record"@,
                )
                ||| exists|position: int| #[trigger]
                    is_first_fault(snapshot.listed(), indexes@, position) && error.refuses(
                        fault_at(snapshot.listed(), indexes@, position)->0.text(),
                    )
            },
        },
{
    if indexes.len() == 0 {
        return Err(refusal("journal cleanup would remove every syntactic record"));
    }
    let lines = snapshot.lines();
    let ghost views = snapshot.listed();
    let mut kept: Vec<bool> = Vec::new();
    let mut filled: usize = 0;
    while filled < lines.len()
        invariant
            filled <= lines@.len(),
            kept@.len() == filled,
            forall|i: int| 0 <= i < filled ==> !#[trigger] kept@[i],
        decreases lines@.len() - filled,
    {
        kept.push(false);
        filled = filled + 1;
    }
    let mut position: usize = 0;
    while position < indexes.len()
        invariant
            position <= indexes@.len(),
            views == snapshot.listed(),
            views == scan::line_views(lines@),
            kept@.len() == views.len(),
            forall|i: int|
                0 <= i < kept@.len() ==> #[trigger] kept@[i] == indexes@.take(
                    position as int,
                ).contains(i as usize),
            forall|i: int| 0 <= i < position ==> #[trigger] fault_at(views, indexes@, i) is None,
        decreases indexes@.len() - position,
    {
        let index = indexes[position];
        let ghost earlier = indexes@.take(position as int);
        if index >= lines.len() {
            let mut details = String::from_str("journal cleanup selected nonexistent line index ");
            push_decimal(&mut details, index as u64);
            assert(is_first_fault(views, indexes@, position as int));
            return Err(Error::InvalidFormat { details });
        }
        assert(views[index as int] == lines@[index as int]@);
        let is_record = match lines[index].classification() {
            RawJournalLineClassification::Record(_) => true,
            _ => false,
        };
        if !is_record {
            let mut details = String::from_str("journal cleanup selected non-record line index ");
            push_decimal(&mut details, index as u64);
            assert(is_first_fault(views, indexes@, position as int));
            return Err(Error::InvalidFormat { details });
        }
        if kept[index] {
            let mut details = String::from_str("journal cleanup selected line index ");
            push_decimal(&mut details, index as u64);
            details.append(" more than once");
            assert(is_first_fault(views, indexes@, position as int));
            return Err(Error::InvalidFormat { details });
        }
        kept.set(index, true);
        proof {
            let longer = indexes@.take(position as int + 1);
            assert(longer =~= earlier.push(index));
            assert forall|i: int| 0 <= i < kept@.len() implies #[trigger] kept@[i]
                == longer.contains(i as usize) by {
                if i == index {
                    assert(longer[position as int] == index);
                }
                if earlier.contains(i as usize) {
                    let k = choose|k: int| 0 <= k < earlier.len() && earlier[k] == i as usize;
                    assert(longer[k] == i as usize);
                }
            }
        }
        position = position + 1;
    }
    assert(indexes@.take(indexes@.len() as int) =~= indexes@);
    Ok(kept)
}

/// Assembles the marked lines in file order. An originally unterminated final
/// line receives one line feed; every other terminator stays as it is.
pub fn assemble_replacement(snapshot: &RawJournal, kept: &Vec<bool>) -> (output: Vec<u8>)
    requires
        kept@.len() == snapshot.listed().len(),
    ensures
        output@ == replacement(snapshot.listed(), kept@),
{
    let lines = snapshot.lines();
    let ghost views = snapshot.listed();
    let mut output: Vec<u8> = Vec::new();
    let mut index: usize = 0;
    assert(views.take(0) =~= Seq::empty());
    while index < lines.len()
        invariant
            index <= lines@.len(),
            views == scan::line_views(lines@),
            kept@.len() == views.len(),
            output@ == scan::concatenated(kept_lines(views.take(index as int), kept@)),
        decreases lines@.len() - index,
    {
        let ghost before = output@;
        proof {
            assert(views[index as int] == lines@[index as int]@);
            assert(views.take(index as int + 1).drop_last() =~= views.take(index as int));
            lemma_concatenated_push(
                kept_lines(views.take(index as int), kept@),
                views[index as int],
            );
        }
        if kept[index] {
            let bytes = lines[index].raw_bytes();
            output.extend_from_slice(bytes);
            assert(output@ =~= before + bytes@);
        }
        index = index + 1;
    }
    assert(views.take(index as int) =~= views);
    let ends_line = output.len() > 0 && (output[output.len() - 1] == LINE_FEED || output[output.len()
        - 1] == CARRIAGE_RETURN);
    if !ends_line {
        output.push(LINE_FEED);
    }
    output
}

proof fn lemma_concatenated_push(lines: Seq<LineView>, line: LineView)
    ensures
        scan::concatenated(lines.push(line)) == scan::concatenated(lines) + line.raw,
    decreases lines.len(),
{
    let longer = lines.push(line);
    if lines.len() == 0 {
        assert(longer.drop_first() =~= Seq::empty());
        assert(longer[0] == line);
        assert(scan::concatenated(Seq::<LineView>::empty()) =~= Seq::empty());
        assert(scan::concatenated(longer) =~= scan::concatenated(lines) + line.raw);
    } else {
        lemma_concatenated_push(lines.drop_first(), line);
        assert(longer.drop_first() =~= lines.drop_first().push(line));
        assert(scan::concatenated(longer) =~= scan::concatenated(lines) + line.raw);
    }
}

/// What a rewrite would install.
#[derive(Debug)]
pub struct PreparedRewrite {
    /// The bytes of the replacement.
    pub output: Vec<u8>,
    /// Whether they differ from the journal's.
    pub changed: bool,
    /// Number of record lines retained.
    pub retained_record_count: usize,
    /// Number of physical lines not retained.
    pub removed_line_count: usize,
}

/// The durable result of replacing a journal.
#[derive(Clone, Debug)]
pub struct JournalRewriteOutcome {
    /// Whether the installed journal bytes changed.
    pub changed: bool,
    /// The recovery backup created for a changed journal.
    pub backup_path: Option<String>,
    /// Number of syntactic record lines retained.
    pub retained_record_count: usize,
    /// Number of physical input lines not retained.
    pub removed_line_count: usize,
    /// Number of bytes in the installed journal.
    pub bytes_written: usize,
}

impl JournalRewriteOutcome {
    /// A backup was created exactly if the journal changed, and it changed
    /// exactly if lines went.
    pub open spec fn is_consistent(self) -> bool {
        &&& self.backup_path is Some <==> self.changed
        &&& self.changed <==> self.removed_line_count != 0
    }

    /// Whether a backup was created exactly if the journal changed, and whether
    /// it changed exactly if lines went.
    pub fn agrees(&self) -> (agrees: bool)
        ensures
            agrees == self.is_consistent(),
    {
        self.backup_path.is_some() == self.changed && self.changed == (self.removed_line_count != 0)
    }
}

impl PreparedRewrite {
    /// What is reported where the replacement is the journal itself: it is left
    /// alone, and no backup is made.
    pub fn left_alone(&self) -> (outcome: JournalRewriteOutcome)
        requires
            !self.changed,
        ensures
            !outcome.changed,
            outcome.backup_path is None,
            outcome.retained_record_count == self.retained_record_count,
            outcome.removed_line_count == self.removed_line_count,
            outcome.bytes_written == self.output@.len(),
            self.removed_line_count == 0 ==> outcome.is_consistent(),
    {
        JournalRewriteOutcome {
            changed: false,
            backup_path: None,
            retained_record_count: self.retained_record_count,
            removed_line_count: self.removed_line_count,
            bytes_written: self.output.len(),
        }
    }

    /// What is reported where the replacement was installed, with the backup of
    /// the journal that it replaced.
    pub fn installed(&self, backup_path: String) -> (outcome: JournalRewriteOutcome)
        requires
            self.changed,
        ensures
            outcome.changed,
            outcome.backup_path == Some(backup_path),
            outcome.retained_record_count == self.retained_record_count,
            outcome.removed_line_count == self.removed_line_count,
            outcome.bytes_written == self.output@.len(),
            self.removed_line_count != 0 ==> outcome.is_consistent(),
    {
        JournalRewriteOutcome {
            changed: true,
            backup_path: Some(backup_path),
            retained_record_count: self.retained_record_count,
            removed_line_count: self.removed_line_count,
            bytes_written: self.output.len(),
        }
    }
}

proof fn lemma_marked_count(lines: Seq<LineView>, indexes: Seq<usize>, kept: Seq<bool>)
    requires
        marks(lines, indexes, kept),
        lines.len() <= usize::MAX,
        forall|i: int| 0 <= i < indexes.len() ==> #[trigger] fault_at(lines, indexes, i) is None,
    ensures
        kept_lines(lines, kept).len() == indexes.len(),
        indexes.len() <= lines.len(),
{
    assert forall|i: int, j: int|
        0 <= i < j < indexes.len() implies indexes[i] != indexes[j] by {
        assert(fault_at(lines, indexes, j) is None);
        assert(indexes.take(j)[i] == indexes[i]);
    }
    assert forall|i: int| 0 <= i < indexes.len() implies (#[trigger] indexes[i]) < lines.len() by {
        assert(fault_at(lines, indexes, i) is None);
    }
    assert(indexes.no_duplicates());
    indexes.unique_seq_to_set();
    lemma_kept_count(lines, indexes.to_set(), kept);
}

proof fn lemma_kept_count(lines: Seq<LineView>, chosen: Set<usize>, kept: Seq<bool>)
    requires
        chosen.finite(),
        lines.len() <= kept.len(),
        lines.len() <= usize::MAX,
        forall|index: usize| chosen.contains(index) ==> index < lines.len(),
        forall|i: int| 0 <= i < lines.len() ==> #[trigger] kept[i] == chosen.contains(i as usize),
    ensures
        kept_lines(lines, kept).len() == chosen.len(),
        chosen.len() <= lines.len(),
    decreases lines.len(),
{
    if lines.len() == 0 {
        assert(chosen =~= Set::empty());
    } else {
        let last = (lines.len() - 1) as usize;
        let rest = chosen.remove(last);
        assert forall|i: int| 0 <= i < lines.drop_last().len() implies #[trigger] kept[i]
            == rest.contains(i as usize) by {
            assert(kept[i] == chosen.contains(i as usize));
        }
        lemma_kept_count(lines.drop_last(), rest, kept);
        assert(kept[last as int] == chosen.contains(last));
        if !chosen.contains(last) {
            assert(rest =~= chosen);
        }
    }
}

/// Decides what a rewrite with only the selected lines would install.
///
/// Indexes may be supplied in any order; the output follows the file's.
pub fn prepare_journal_rewrite(snapshot: &RawJournal, retained_record_line_indexes: &[usize]) -> (prepared:
    Result<PreparedRewrite, Error>)
    ensures
        match prepared {
            Ok(rewrite) => {
                &&& retained_record_line_indexes@.len() > 0
                &&& forall|i: int|
                    0 <= i < retained_record_line_indexes@.len() ==> #[trigger] fault_at(
                        snapshot.listed(),
                        retained_record_line_indexes@,
                        i,
                    ) is None
                &&& exists|kept: Seq<bool>| #[trigger]
                    marks(snapshot.listed(), retained_record_line_indexes@, kept)
                        && rewrite.output@ == replacement(snapshot.listed(), kept)
                &&& rewrite.changed == (rewrite.output@ != snapshot.source())
                &&& rewrite.retained_record_count == retained_record_line_indexes@.len()
                &&& rewrite.removed_line_count == snapshot.listed().len()
                    - retained_record_line_indexes@.len()
                &&& snapshot.well_formed() && rewrite.removed_line_count != 0 ==> rewrite.changed
            },
            Err(error) => {
                ||| retained_record_line_indexes@.len() == 0 && error.refuses(
                    "journal cleanup would remove every syntactic record"@,
                )
                ||| exists|position: int| #[trigger]
                    is_first_fault(snapshot.listed(), retained_record_line_indexes@, position)
                        && error.refuses(
                        fault_at(
                            snapshot.listed(),
                            retained_record_line_indexes@,
                            position,
                        )->0.text(),
                    )
            },
        },
{
    let kept = validate_retained_indexes(snapshot, retained_record_line_indexes)?;
    let output = assemble_replacement(snapshot, &kept);
    let line_count: usize = snapshot.lines().len();
    proof {
        assert(snapshot.listed().len() == line_count);
        lemma_marked_count(snapshot.listed(), retained_record_line_indexes@, kept@);
        if snapshot.well_formed() && retained_record_line_indexes@.len() < line_count {
            assert forall|i: int| 0 <= i < kept@.len() && #[trigger] kept@[i] implies (
            snapshot.listed()[i].class is Record) by {
                let position = choose|position: int|
                    0 <= position < retained_record_line_indexes@.len()
                        && retained_record_line_indexes@[position] == i as usize;
                assert(fault_at(
                    snapshot.listed(),
                    retained_record_line_indexes@,
                    position,
                ) is None);
            }
            law_removing_a_line_changes_the_journal(snapshot.source(), kept@);
        }
    }
    let changed = !bytes_equal(output.as_slice(), snapshot.source_bytes());
    Ok(
        PreparedRewrite {
            output,
            changed,
            retained_record_count: retained_record_line_indexes.len(),
            removed_line_count: line_count - retained_record_line_indexes.len(),
        },
    )
}

/// Whether two byte strings are the same.
pub fn bytes_equal(left: &[u8], right: &[u8]) -> (equal: bool)
    ensures
        equal == (left@ == right@),
{
    if left.len() != right.len() {
        return false;
    }
    let mut index: usize = 0;
    while index < left.len()
        invariant
            index <= left@.len(),
            left@.len() == right@.len(),
            forall|i: int| 0 <= i < index ==> left@[i] == right@[i],
        decreases left@.len() - index,
    {
        if left[index] != right[index] {
            return false;
        }
        index = index + 1;
    }
    assert(left@ =~= right@);
    true
}

/// A line that a scan could have produced and that another line can follow.
spec fn is_whole_line(line: LineView) -> bool {
    &&& 0 < line.content_length < line.raw.len()
    &&& line.class == scan::classified(line.raw.take(line.content_length as int))
    &&& forall|i: int|
        0 <= i < line.content_length ==> line.raw[i] != LINE_FEED && line.raw[i] != CARRIAGE_RETURN
    &&& ({
        let terminator = line.raw.skip(line.content_length as int);
        ||| terminator == seq![LINE_FEED]
        ||| terminator == seq![CARRIAGE_RETURN]
        ||| terminator == seq![CARRIAGE_RETURN, LINE_FEED]
    })
}

proof fn lemma_content_reached(source: Seq<u8>, count: int)
    requires
        0 <= count <= source.len(),
        forall|i: int| 0 <= i < count ==> source[i] != LINE_FEED && source[i] != CARRIAGE_RETURN,
        count == source.len() || source[count] == LINE_FEED || source[count] == CARRIAGE_RETURN,
    ensures
        scan::content_length(source) == count,
    decreases count,
{
    if count > 0 {
        assert(source[0] != LINE_FEED && source[0] != CARRIAGE_RETURN);
        lemma_content_reached(source.drop_first(), count - 1);
    }
}

proof fn lemma_line_then_rest(line: LineView, rest: Seq<u8>)
    requires
        is_whole_line(line),
        rest.len() > 0 ==> rest[0] != LINE_FEED,
    ensures
        scan::physical_lines(line.raw + rest) == seq![line] + scan::physical_lines(rest),
{
    let source = line.raw + rest;
    let content = line.content_length as int;
    let terminator = line.raw.skip(content);
    assert forall|i: int| 0 <= i < content implies source[i] != LINE_FEED && source[i]
        != CARRIAGE_RETURN by {
        assert(source[i] == line.raw[i]);
    }
    assert(source[content] == terminator[0]);
    lemma_content_reached(source, content);
    let after = source.skip(content);
    assert(after =~= terminator + rest);
    if terminator.len() == 2 {
        assert(after[1] == LINE_FEED);
    } else if rest.len() > 0 {
        assert(after[1] == rest[0]);
    }
    assert(scan::terminator_length(after) == terminator.len());
    assert(scan::line_length(source) == line.raw.len());
    assert(source.take(line.raw.len() as int) =~= line.raw);
    assert(source.skip(line.raw.len() as int) =~= rest);
    assert(source.take(content) =~= line.raw.take(content));
    assert(scan::first_line(source) == line);
}

proof fn lemma_whole_lines_rescan(lines: Seq<LineView>)
    requires
        forall|i: int| 0 <= i < lines.len() ==> is_whole_line(#[trigger] lines[i]),
    ensures
        scan::physical_lines(scan::concatenated(lines)) == lines,
    decreases lines.len(),
{
    if lines.len() == 0 {
        assert(scan::physical_lines(Seq::empty()) =~= lines);
    } else {
        let rest = lines.drop_first();
        assert forall|i: int| 0 <= i < rest.len() implies is_whole_line(#[trigger] rest[i]) by {
            assert(is_whole_line(lines[i + 1]));
        }
        lemma_whole_lines_rescan(rest);
        let tail = scan::concatenated(rest);
        if tail.len() > 0 {
            assert(rest.len() > 0);
            assert(is_whole_line(lines[1]));
            assert(tail[0] == rest[0].raw[0]);
        }
        assert(is_whole_line(lines[0]));
        lemma_line_then_rest(lines[0], tail);
        assert(seq![lines[0]] + rest =~= lines);
    }
}

/// The lines that a replacement holds: the kept ones, the last of them with a
/// line feed where it had no terminator.
pub open spec fn installed_lines(lines: Seq<LineView>, kept: Seq<bool>) -> Seq<LineView> {
    let chosen = kept_lines(lines, kept);
    if chosen.len() == 0 {
        chosen
    } else {
        chosen.drop_last().push(
            LineView { raw: terminated(chosen.last().raw), ..chosen.last() },
        )
    }
}

proof fn lemma_kept_shape(source: Seq<u8>, count: int, kept: Seq<bool>)
    requires
        0 <= count <= scan::physical_lines(source).len(),
        kept.len() == scan::physical_lines(source).len(),
        forall|i: int|
            0 <= i < kept.len() && #[trigger] kept[i]
                ==> scan::physical_lines(source)[i].class is Record,
    ensures
        ({
            let lines = scan::physical_lines(source);
            let chosen = kept_lines(lines.take(count), kept);
            &&& forall|i: int|
                0 <= i < chosen.len() ==> (#[trigger] chosen[i]).class is Record
                    && chosen[i].class == scan::classified(
                    chosen[i].raw.take(chosen[i].content_length as int),
                ) && 0 < chosen[i].content_length <= chosen[i].raw.len() && (forall|k: int|
                    0 <= k < chosen[i].content_length ==> chosen[i].raw[k] != LINE_FEED
                        && chosen[i].raw[k] != CARRIAGE_RETURN)
            &&& forall|i: int|
                0 <= i < chosen.len() - 1 ==> is_whole_line(#[trigger] chosen[i])
            &&& chosen.len() > 0 ==> is_whole_line(chosen.last()) || (
            chosen.last().content_length == chosen.last().raw.len() && count == lines.len())
        }),
    decreases count,
{
    let lines = scan::physical_lines(source);
    if count > 0 {
        lemma_kept_shape(source, count - 1, kept);
        assert(lines.take(count).drop_last() =~= lines.take(count - 1));
        let earlier = kept_lines(lines.take(count - 1), kept);
        let chosen = kept_lines(lines.take(count), kept);
        if kept[count - 1] {
            scan::law_line_shape(source, count - 1);
            let line = lines[count - 1];
            assert(line.class is Record);
            if line.content_length == 0 {
                assert(line.raw.take(0) =~= Seq::<u8>::empty());
                assert(scan::field_length(Seq::<u8>::empty()) == 0);
                assert(scan::classified(Seq::<u8>::empty()) is ParserSkippedNoSpace);
            }
            assert(chosen =~= earlier.push(line));
        }
    }
}

/// A rewrite preserves every kept line byte for byte and in order, and adds
/// nothing: scanning the replacement gives back exactly the kept record
/// lines, the last of them with the one line feed it may have lacked.
pub proof fn law_replacement_holds_exactly_the_kept_lines(source: Seq<u8>, kept: Seq<bool>)
    requires
        kept.len() == scan::physical_lines(source).len(),
        forall|i: int|
            0 <= i < kept.len() && #[trigger] kept[i]
                ==> scan::physical_lines(source)[i].class is Record,
        kept_lines(scan::physical_lines(source), kept).len() > 0,
    ensures
        scan::physical_lines(replacement(scan::physical_lines(source), kept)) == installed_lines(
            scan::physical_lines(source),
            kept,
        ),
{
    let lines = scan::physical_lines(source);
    let chosen = kept_lines(lines, kept);
    lemma_kept_shape(source, lines.len() as int, kept);
    assert(lines.take(lines.len() as int) =~= lines);
    let installed = installed_lines(lines, kept);
    let last = chosen.last();
    let last_index = chosen.len() - 1;
    assert(chosen[last_index].class is Record);
    let closed = LineView { raw: terminated(last.raw), ..last };
    lemma_concatenated_push(chosen.drop_last(), last);
    assert(chosen.drop_last().push(last) =~= chosen);
    lemma_concatenated_push(chosen.drop_last(), closed);
    let head = scan::concatenated(chosen.drop_last());
    let whole = scan::concatenated(chosen);
    assert(whole == head + last.raw);
    assert(whole.last() == last.raw.last());
    assert(terminated(whole) =~= head + terminated(last.raw));
    assert(is_whole_line(closed)) by {
        if is_whole_line(last) {
            let terminator = last.raw.skip(last.content_length as int);
            assert(last.raw.last() == terminator.last());
            assert(closed == last);
        } else {
            assert(last.content_length == last.raw.len());
            let final_index = last.raw.len() - 1;
            assert(last.raw[final_index] != LINE_FEED && last.raw[final_index] != CARRIAGE_RETURN);
            assert(closed.raw.skip(closed.content_length as int) =~= seq![LINE_FEED]);
            assert(closed.raw.take(closed.content_length as int) =~= last.raw);
            assert(last.raw.take(last.content_length as int) =~= last.raw);
            assert forall|i: int| 0 <= i < closed.content_length implies closed.raw[i] != LINE_FEED
                && closed.raw[i] != CARRIAGE_RETURN by {
                assert(closed.raw[i] == chosen[last_index].raw[i]);
            }
        }
    }
    assert forall|i: int| 0 <= i < installed.len() implies is_whole_line(
        #[trigger] installed[i],
    ) by {
        if i < installed.len() - 1 {
            assert(installed[i] == chosen[i]);
        }
    }
    lemma_whole_lines_rescan(installed);
    assert(scan::concatenated(installed) == head + terminated(last.raw));
}

/// A rewrite that leaves a line out changes the journal.
pub proof fn law_removing_a_line_changes_the_journal(source: Seq<u8>, kept: Seq<bool>)
    requires
        kept.len() == scan::physical_lines(source).len(),
        forall|i: int|
            0 <= i < kept.len() && #[trigger] kept[i]
                ==> scan::physical_lines(source)[i].class is Record,
        0 < kept_lines(scan::physical_lines(source), kept).len() < scan::physical_lines(
            source,
        ).len(),
    ensures
        replacement(scan::physical_lines(source), kept) != source,
{
    law_replacement_holds_exactly_the_kept_lines(source, kept);
    assert(installed_lines(scan::physical_lines(source), kept).len() == kept_lines(
        scan::physical_lines(source),
        kept,
    ).len());
}

/// A journal of terminated records from which nothing is removed is its own
/// replacement: such a rewrite changes nothing.
pub proof fn law_keeping_every_line_changes_nothing(source: Seq<u8>, kept: Seq<bool>)
    requires
        kept.len() == scan::physical_lines(source).len(),
        forall|i: int| 0 <= i < kept.len() ==> #[trigger] kept[i],
        is_terminated(source),
    ensures
        replacement(scan::physical_lines(source), kept) == source,
{
    let lines = scan::physical_lines(source);
    lemma_all_kept(lines, kept);
    scan::law_lines_hold_every_byte(source);
}

proof fn lemma_all_kept(lines: Seq<LineView>, kept: Seq<bool>)
    requires
        lines.len() <= kept.len(),
        forall|i: int| 0 <= i < kept.len() ==> #[trigger] kept[i],
    ensures
        kept_lines(lines, kept) == lines,
    decreases lines.len(),
{
    if lines.len() > 0 {
        lemma_all_kept(lines.drop_last(), kept);
        assert(kept[lines.len() - 1]);
        assert(lines.drop_last().push(lines.last()) =~= lines);
    } else {
        assert(lines =~= Seq::empty());
    }
}

} // verus!
