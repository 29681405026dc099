//! The list of saved fights, kept until the directory behind it changes.

use vstd::prelude::*;

use crate::history::fight_record::{
    copy_summaries, start_times, summaries_of, summarize, summary_states, FightRecord,
    FightSummary, SummaryState,
};
use crate::history::ranking::ranked_by;
use crate::text::chars_of;

verus! {

/// Cheap fingerprint of the history directory: how many fight files there are,
/// and the newest write among them, in nanoseconds since the epoch.
#[derive(Clone, Copy, Debug, PartialEq, Eq, Structural)]
pub struct DirStamp {
    pub count: usize,
    pub latest: Option<i128>,
}

/// Whether `latest` is the largest of the times in `writes` that are known.
pub open spec fn is_latest(writes: Seq<Option<i128>>, latest: Option<i128>) -> bool {
    match latest {
        Some(t) => {
            &&& writes.contains(Some(t))
            &&& forall|i: int|
                0 <= i < writes.len() && (#[trigger] writes[i]) is Some ==> writes[i]->0 <= t
        },
        None => forall|i: int| 0 <= i < writes.len() ==> (#[trigger] writes[i]) is None,
    }
}

impl DirStamp {
    /// The fingerprint of a directory whose fight files were last written at
    /// `writes`; of some of them that may be unknown.
    pub fn of(writes: &Vec<Option<i128>>) -> (stamp: DirStamp)
        ensures
            stamp.count == writes@.len(),
            is_latest(writes@, stamp.latest),
    {
        let mut latest: Option<i128> = None;
        let mut i: usize = 0;
        while i < writes.len()
            invariant
                i <= writes@.len(),
                is_latest(writes@.take(i as int), latest),
            decreases writes.len() - i,
        {
            let ghost seen = writes@.take(i as int);
            let ghost more = writes@.take(i + 1);
            let ghost before = latest;
            assert(more.drop_last() =~= seen);
            assert forall|k: int| 0 <= k < i implies more[k] == seen[k] by {}
            if let Some(written) = writes[i] {
                latest = match latest {
                    Some(current) => if current >= written {
                        Some(current)
                    } else {
                        Some(written)
                    },
                    None => Some(written),
                };
            }
            proof {
                assert(more[i as int] == writes@[i as int]);
                if before is Some && latest == before {
                    let k = choose|k: int| 0 <= k < seen.len() && seen[k] == before;
                    assert(more[k] == before);
                }
            }
            i += 1;
        }
        assert(writes@.take(i as int) =~= writes@);
        DirStamp { count: writes.len(), latest }
    }
}

/// The name of the file that holds a fight.
pub open spec fn file_name(id: Seq<char>) -> Seq<char> {
    id + ".json"@
}

/// Whether a file name has the extension that fight files have. What begins with
/// its only dot has none.
pub open spec fn has_fight_extension(name: Seq<char>) -> bool {
    exists|stem: Seq<char>| stem.len() > 0 && name == #[trigger] file_name(stem)
}

/// A fight is saved under a name by which it is found again, unless its id is
/// empty.
pub proof fn law_saved_fight_is_listed(id: Seq<char>)
    requires
        id.len() > 0,
    ensures
        has_fight_extension(file_name(id)),
{
}

/// The name of the file that holds a fight.
pub fn fight_file_name(id: &str) -> (name: String)
    ensures
        name@ == file_name(id@),
{
    let mut name: String = id.to_owned();
    name.append(".json");
    name
}

/// Whether a file name has the extension that fight files have.
pub fn is_fight_file(name: &str) -> (is: bool)
    ensures
        is == has_fight_extension(name@),
{
    proof {
        reveal_strlit(".json");
    }
    let chars: Vec<char> = chars_of(name);
    let n: usize = chars.len();
    let is: bool = n > 5 && chars[n - 5] == '.' && chars[n - 4] == 'j' && chars[n - 3] == 's'
        && chars[n - 2] == 'o' && chars[n - 1] == 'n';
    proof {
        if is {
            let stem = name@.take(n - 5);
            assert(name@ =~= file_name(stem));
        }
        if has_fight_extension(name@) {
            let stem = choose|stem: Seq<char>|
                stem.len() > 0 && name@ == #[trigger] file_name(stem);
            let k = stem.len() as int;
            assert(name@[k] == ".json"@[0]);
            assert(name@[k + 1] == ".json"@[1]);
            assert(name@[k + 2] == ".json"@[2]);
            assert(name@[k + 3] == ".json"@[3]);
            assert(name@[k + 4] == ".json"@[4]);
        }
    }
    is
}

/// The list of saved fights, as last read.
///
/// Reading it means parsing every file, so it is kept, and read again only when
/// the directory has changed.
pub struct FightHistoryManager {
    cache: Option<(DirStamp, Vec<FightSummary>)>,
}

impl View for FightHistoryManager {
    type V = Option<(DirStamp, Seq<SummaryState>)>;

    closed spec fn view(&self) -> Option<(DirStamp, Seq<SummaryState>)> {
        match self.cache {
            Some((stamp, summaries)) => Some((stamp, summary_states(summaries@))),
            None => None,
        }
    }
}

/// Whether the list as last read is still good for a directory with the
/// fingerprint `stamp`.
pub open spec fn still_good(cache: Option<(DirStamp, Seq<SummaryState>)>, stamp: DirStamp) -> bool {
    cache is Some && (cache->0).0 == stamp
}

/// A list is never taken for that of a directory that has changed since: after a
/// fight was saved or deleted, or once the fingerprint is another, it is read
/// again.
pub proof fn law_changed_directory_is_read_again(
    cache: Option<(DirStamp, Seq<SummaryState>)>,
    then: DirStamp,
    now: DirStamp,
)
    requires
        still_good(cache, then),
    ensures
        still_good(cache, now) <==> now == then,
        !still_good(None, now),
{
}

impl FightHistoryManager {
    /// A manager that has read nothing yet.
    pub fn new() -> (manager: FightHistoryManager)
        ensures
            manager@ is None,
    {
        FightHistoryManager { cache: None }
    }

    /// Forgets the list, because a fight was saved or deleted.
    pub fn invalidate(&mut self)
        ensures
            final(self)@ is None,
    {
        self.cache = None;
    }

    /// The list of saved fights, the latest first, for a directory with the
    /// fingerprint `stamp`. If the list as last read is still good, it is
    /// returned. Otherwise it is made anew from the fights that `records` gives;
    /// without them the answer is `None`, and the caller is to read them.
    pub fn list_fights(&mut self, stamp: DirStamp, records: Option<Vec<FightRecord>>) -> (fights:
        Option<Vec<FightSummary>>)
        ensures
            still_good(old(self)@, stamp) ==> {
                &&& fights is Some
                &&& summary_states(fights->0@) == (old(self)@->0).1
                &&& final(self)@ == old(self)@
            },
            !still_good(old(self)@, stamp) ==> match records {
                Some(records) => {
                    &&& fights is Some
                    &&& ranked_by(
                        summary_states(fights->0@),
                        summaries_of(records@),
                        start_times(records@),
                    )
                    &&& final(self)@ == Some((stamp, summary_states(fights->0@)))
                },
                None => fights is None && final(self)@ == old(self)@,
            },
    {
        if let Some((cached, summaries)) = &self.cache {
            if *cached == stamp {
                return Some(copy_summaries(summaries));
            }
        }
        match records {
            Some(records) => {
                let summaries: Vec<FightSummary> = summarize(records);
                let fights: Vec<FightSummary> = copy_summaries(&summaries);
                self.cache = Some((stamp, summaries));
                Some(fights)
            },
            None => None,
        }
    }
}

/// The file of a fight is named by its id with `.json` behind it. A name is that of a
/// fight file exactly when it ends so and has something in front.
pub proof fn law_fight_files_are_known_by_their_end(id: Seq<char>, name: Seq<char>)
    ensures
        file_name(id) == id + seq!['.', 'j', 's', 'o', 'n'],
        has_fight_extension(name) <==> name.len() > 5 && name.skip(name.len() - 5)
            == seq!['.', 'j', 's', 'o', 'n'],
{
    reveal_strlit(".json");
    let end = seq!['.', 'j', 's', 'o', 'n'];
    assert(".json"@ =~= end);
    if name.len() > 5 && name.skip(name.len() - 5) == end {
        let stem = name.take(name.len() - 5);
        assert(name =~= stem + name.skip(name.len() - 5));
        assert(name == file_name(stem));
    }
    if has_fight_extension(name) {
        let stem = choose|stem: Seq<char>| stem.len() > 0 && name == #[trigger] file_name(stem);
        assert(name.skip(name.len() - 5) =~= end);
    }
}

/// The newest write is one of those that are known, and none that is known is newer; it
/// is unknown only if all are.
pub proof fn law_latest_write_is_the_newest(writes: Seq<Option<i128>>, latest: Option<i128>, i: int)
    requires
        is_latest(writes, latest),
        0 <= i < writes.len(),
        writes[i] is Some,
    ensures
        latest is Some,
        latest->0 >= writes[i]->0,
        writes.contains(latest),
{
}

} // verus!
