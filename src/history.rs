//! The history of the commands of an aggregate, filtered and paged.
use vstd::prelude::*;

use crate::store::KeyStoreError;

verus! {

/// What the history shows of a stored command.
#[derive(Debug)]
pub struct CommandHistoryRecord {
    pub actor: String,
    /// Seconds since the Unix epoch.
    pub time: i64,
    pub handle: String,
    pub version: u64,
    pub sequence: u64,
    pub summary: String,
}

/// Which commands a history query asks for, and which page of them.
#[derive(Clone, Copy, Debug)]
pub struct CommandHistoryCriteria {
    /// Only commands strictly before this time.
    pub before: Option<i64>,
    /// Only commands strictly after this time.
    pub after: Option<i64>,
    /// How many of the matching commands to skip.
    pub offset: usize,
    /// At most this many commands in the page.
    pub rows: Option<usize>,
}

/// A page of the command history.
#[derive(Debug)]
pub struct CommandHistory {
    pub offset: usize,
    /// The number of matching commands, before paging.
    pub total: usize,
    pub commands: Vec<CommandHistoryRecord>,
}

impl CommandHistoryCriteria {
    pub open spec fn includes(&self, r: CommandHistoryRecord) -> bool {
        &&& self.before matches Some(b) ==> r.time < b
        &&& self.after matches Some(a) ==> r.time > a
    }

    pub fn should_include(&self, r: &CommandHistoryRecord) -> (b: bool)
        ensures
            b == self.includes(*r),
    {
        let before_ok = match self.before {
            Some(b) => r.time < b,
            None => true,
        };
        let after_ok = match self.after {
            Some(a) => r.time > a,
            None => true,
        };
        before_ok && after_ok
    }
}

/// The records that the criteria include, in their order.
pub open spec fn included(crit: CommandHistoryCriteria, recs: Seq<CommandHistoryRecord>) -> Seq<CommandHistoryRecord>
    decreases recs.len(),
{
    if recs.len() == 0 {
        Seq::empty()
    } else {
        let rest = included(crit, recs.drop_last());
        if crit.includes(recs.last()) {
            rest.push(recs.last())
        } else {
            rest
        }
    }
}

/// Every command was found.
pub open spec fn all_found(records: Seq<Option<CommandHistoryRecord>>) -> bool {
    forall|i: int| 0 <= i < records.len() ==> (#[trigger] records[i]) is Some
}

/// The records of commands that were all found.
pub open spec fn found(records: Seq<Option<CommandHistoryRecord>>) -> Seq<CommandHistoryRecord> {
    records.map_values(|o: Option<CommandHistoryRecord>| o->Some_0)
}

/// The page that the criteria select out of the matching records.
pub open spec fn page(crit: CommandHistoryCriteria, matching: Seq<CommandHistoryRecord>) -> Seq<CommandHistoryRecord> {
    let end = match crit.rows {
        Some(rows) if crit.offset + rows < matching.len() => crit.offset + rows,
        _ => matching.len() as int,
    };
    matching.subrange(crit.offset as int, end)
}

fn copy_record(r: &CommandHistoryRecord) -> (c: CommandHistoryRecord)
    ensures
        c == *r,
{
    CommandHistoryRecord {
        actor: r.actor.clone(),
        time: r.time,
        handle: r.handle.clone(),
        version: r.version,
        sequence: r.sequence,
        summary: r.summary.clone(),
    }
}

/// The history page of the commands whose records are given in sequence
/// order (the record of command `i + 1` at `i`, `None` where it was not
/// found). An error where a command is missing, and where the offset is not
/// below the number of matching commands.
pub fn command_history(records: &Vec<Option<CommandHistoryRecord>>, crit: &CommandHistoryCriteria) -> (r: Result<CommandHistory, KeyStoreError>)
    ensures
        !all_found(records@) <==> r matches Err(KeyStoreError::CommandNotFound),
        all_found(records@) && crit.offset >= included(*crit, found(records@)).len() <==> r matches Err(
            KeyStoreError::CommandOffSetError,
        ),
        all_found(records@) && crit.offset < included(*crit, found(records@)).len() ==> r is Ok,
        r matches Ok(h) ==> h.offset == crit.offset && h.total == included(*crit, found(records@)).len()
            && h.commands@ == page(*crit, included(*crit, found(records@))),
{
    let mut matching: Vec<CommandHistoryRecord> = Vec::new();
    let mut i: usize = 0;
    while i < records.len()
        invariant
            i <= records.len(),
            all_found(records@.take(i as int)),
            matching@ == included(*crit, found(records@.take(i as int))),
        decreases records.len() - i,
    {
        match &records[i] {
            None => {
                assert(!all_found(records@));
                return Err(KeyStoreError::CommandNotFound);
            },
            Some(rec) => {
                let ghost before = found(records@.take(i as int));
                assert(found(records@.take(i + 1)).drop_last() == before);
                assert(found(records@.take(i + 1)).last() == *rec);
                if crit.should_include(rec) {
                    matching.push(copy_record(rec));
                }
            },
        }
        i = i + 1;
    }
    assert(records@.take(records.len() as int) == records@);
    let total = matching.len();
    if crit.offset >= total {
        return Err(KeyStoreError::CommandOffSetError);
    }
    let end = match crit.rows {
        Some(rows) => if rows < total - crit.offset {
            crit.offset + rows
        } else {
            total
        },
        None => total,
    };
    let mut commands: Vec<CommandHistoryRecord> = Vec::new();
    let mut j: usize = crit.offset;
    while j < end
        invariant
            crit.offset <= j <= end <= total == matching.len(),
            commands@ == matching@.subrange(crit.offset as int, j as int),
        decreases end - j,
    {
        commands.push(copy_record(&matching[j]));
        j = j + 1;
    }
    Ok(CommandHistory { offset: crit.offset, total, commands })
}

} // verus!
