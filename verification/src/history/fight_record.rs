//! A saved fight, and what the list of fights shows of it.

use vstd::prelude::*;

use crate::history::ranking::{
    arranged, is_ranking, law_ranking_is_complete_and_sorted, rank, ranked_by,
};

verus! {

/// How many fights of one replay are kept.
pub const REPLAY_FIGHTS_KEPT: usize = 10;

/// A saved fight.
#[derive(Debug)]
pub struct FightRecord {
    pub id: String,
    pub boss_name: String,
    pub target_id: i32,
    pub start_time_ms: i64,
    pub duration_ms: i64,
    pub total_damage: i64,
    /// Names of the classes that took part.
    pub jobs: Vec<String>,
    /// Ids of the classes that took part.
    pub job_ids: Vec<i32>,
    /// Whether the target was a training dummy.
    pub is_train: bool,
    pub app_version: String,
    pub mob_code: i32,
}

/// What the list of fights shows of one.
#[derive(Debug)]
pub struct FightSummary {
    pub id: String,
    pub boss_name: String,
    pub target_id: i32,
    pub start_time_ms: i64,
    pub duration_ms: i64,
    pub total_damage: i64,
    pub jobs: Vec<String>,
    pub job_ids: Vec<i32>,
    pub is_train: bool,
    /// Whether the fight is still going on.
    pub is_live: bool,
    pub app_version: String,
    pub mob_code: i32,
}

/// The mathematical reading of a [`FightSummary`].
#[verifier::ext_equal]
pub struct SummaryState {
    pub id: Seq<char>,
    pub boss_name: Seq<char>,
    pub target_id: i32,
    pub start_time_ms: i64,
    pub duration_ms: i64,
    pub total_damage: i64,
    pub jobs: Seq<Seq<char>>,
    pub job_ids: Seq<i32>,
    pub is_train: bool,
    pub is_live: bool,
    pub app_version: Seq<char>,
    pub mob_code: i32,
}

/// The texts of a list, each by its characters.
pub open spec fn text_list(texts: Seq<String>) -> Seq<Seq<char>> {
    texts.map_values(|text: String| text@)
}

impl View for FightSummary {
    type V = SummaryState;

    open spec fn view(&self) -> SummaryState {
        SummaryState {
            id: self.id@,
            boss_name: self.boss_name@,
            target_id: self.target_id,
            start_time_ms: self.start_time_ms,
            duration_ms: self.duration_ms,
            total_damage: self.total_damage,
            jobs: text_list(self.jobs@),
            job_ids: self.job_ids@,
            is_train: self.is_train,
            is_live: self.is_live,
            app_version: self.app_version@,
            mob_code: self.mob_code,
        }
    }
}

/// The summaries of a list, each by its reading.
pub open spec fn summary_states(summaries: Seq<FightSummary>) -> Seq<SummaryState> {
    summaries.map_values(|summary: FightSummary| summary@)
}

impl FightRecord {
    /// What the list of fights shows of this one. A saved fight is over.
    pub open spec fn summary(self) -> SummaryState {
        SummaryState {
            id: self.id@,
            boss_name: self.boss_name@,
            target_id: self.target_id,
            start_time_ms: self.start_time_ms,
            duration_ms: self.duration_ms,
            total_damage: self.total_damage,
            jobs: text_list(self.jobs@),
            job_ids: self.job_ids@,
            is_train: self.is_train,
            is_live: false,
            app_version: self.app_version@,
            mob_code: self.mob_code,
        }
    }

    /// Keeps of a fight what the list of fights shows.
    pub fn into_summary(self) -> (summary: FightSummary)
        ensures
            summary@ == self.summary(),
    {
        FightSummary {
            id: self.id,
            boss_name: self.boss_name,
            target_id: self.target_id,
            start_time_ms: self.start_time_ms,
            duration_ms: self.duration_ms,
            total_damage: self.total_damage,
            jobs: self.jobs,
            job_ids: self.job_ids,
            is_train: self.is_train,
            is_live: false,
            app_version: self.app_version,
            mob_code: self.mob_code,
        }
    }
}

impl FightSummary {
    /// A copy of this summary.
    pub fn copy(&self) -> (copy: FightSummary)
        ensures
            copy@ == self@,
    {
        let mut jobs: Vec<String> = Vec::new();
        let mut i: usize = 0;
        while i < self.jobs.len()
            invariant
                i <= self.jobs@.len(),
                jobs@ == self.jobs@.take(i as int),
            decreases self.jobs.len() - i,
        {
            jobs.push(self.jobs[i].clone());
            assert(jobs@ =~= self.jobs@.take(i + 1));
            i += 1;
        }
        assert(self.jobs@.take(i as int) =~= self.jobs@);
        let copy = FightSummary {
            id: self.id.clone(),
            boss_name: self.boss_name.clone(),
            target_id: self.target_id,
            start_time_ms: self.start_time_ms,
            duration_ms: self.duration_ms,
            total_damage: self.total_damage,
            jobs,
            job_ids: self.job_ids.clone(),
            is_train: self.is_train,
            is_live: self.is_live,
            app_version: self.app_version.clone(),
            mob_code: self.mob_code,
        };
        assert(copy@ =~= self@);
        copy
    }
}

/// Copies of all summaries of a list, in their order.
pub fn copy_summaries(summaries: &Vec<FightSummary>) -> (copies: Vec<FightSummary>)
    ensures
        summary_states(copies@) == summary_states(summaries@),
{
    let mut copies: Vec<FightSummary> = Vec::new();
    let mut i: usize = 0;
    while i < summaries.len()
        invariant
            i <= summaries@.len(),
            copies@.len() == i,
            forall|k: int| 0 <= k < i ==> (#[trigger] copies@[k])@ == summaries@[k]@,
        decreases summaries.len() - i,
    {
        copies.push(summaries[i].copy());
        i += 1;
    }
    assert(summary_states(copies@) =~= summary_states(summaries@));
    copies
}

/// When the fights of a list began.
pub open spec fn start_times(records: Seq<FightRecord>) -> Seq<i64> {
    records.map_values(|record: FightRecord| record.start_time_ms)
}

/// What the list of fights shows of each of `records`, in their order.
pub open spec fn summaries_of(records: Seq<FightRecord>) -> Seq<SummaryState> {
    records.map_values(|record: FightRecord| record.summary())
}

/// What the list of fights shows: every fight, the latest first.
pub fn summarize(records: Vec<FightRecord>) -> (summaries: Vec<FightSummary>)
    ensures
        ranked_by(
            summary_states(summaries@),
            summaries_of(records@),
            start_times(records@),
        ),
{
    let ghost all = records@;
    let mut keys: Vec<i64> = Vec::new();
    let mut i: usize = 0;
    while i < records.len()
        invariant
            i <= records@.len(),
            records@ == all,
            keys@.len() == i,
            forall|k: int| 0 <= k < i ==> #[trigger] keys@[k] == all[k].start_time_ms,
        decreases records.len() - i,
    {
        keys.push(records[i].start_time_ms);
        i += 1;
    }
    let mut rest: Vec<FightRecord> = rank(records, &keys);
    let ghost order = choose|order: Seq<int>| #[trigger]
        is_ranking(order, keys@) && rest@
            == arranged(all, order);
    let ghost ranked = rest@;
    let mut summaries: Vec<FightSummary> = Vec::new();
    let n: usize = rest.len();
    let mut j: usize = 0;
    assert(ranked.skip(0) =~= ranked);
    while j < n
        invariant
            j <= n,
            n == ranked.len(),
            rest@ == ranked.skip(j as int),
            summaries@.len() == j,
            forall|k: int| 0 <= k < j ==> (#[trigger] summaries@[k])@ == ranked[k].summary(),
        decreases n - j,
    {
        let record: FightRecord = rest.remove(0);
        assert(rest@ =~= ranked.skip(j + 1));
        summaries.push(record.into_summary());
        j += 1;
    }
    proof {
        assert(keys@ =~= start_times(all));
        assert(summary_states(summaries@) =~= arranged(
            summaries_of(all),
            order,
        ));
    }
    summaries
}

/// How many fights are kept of a replay that has `n`.
pub open spec fn kept_of(n: nat) -> nat {
    if n < REPLAY_FIGHTS_KEPT {
        n
    } else {
        REPLAY_FIGHTS_KEPT as nat
    }
}

/// All fights of a replay are kept up to the tenth, and of more the ten that rank first:
/// none that is left out has more damage than one that is kept.
pub proof fn law_best_ten_fights_are_kept(order: Seq<int>, damages: Seq<i64>, i: int, j: int)
    requires
        is_ranking(order, damages),
        0 <= i < kept_of(damages.len()) <= j < damages.len(),
    ensures
        damages[order[i]] >= damages[order[j]],
        kept_of(damages.len()) == 10,
        forall|n: nat| n <= 10 ==> #[trigger] kept_of(n) == n,
{
    law_ranking_is_complete_and_sorted(order, damages);
}

/// The list shows every fight as it was saved, and as over.
pub proof fn law_summary_shows_the_fight(records: Seq<FightRecord>, i: int)
    requires
        0 <= i < records.len(),
    ensures
        ({
            let r = records[i];
            let s = summaries_of(records)[i];
            &&& summaries_of(records).len() == records.len()
            &&& start_times(records).len() == records.len()
            &&& start_times(records)[i] == r.start_time_ms
            &&& s.id == r.id@
            &&& s.boss_name == r.boss_name@
            &&& s.target_id == r.target_id
            &&& s.start_time_ms == r.start_time_ms
            &&& s.duration_ms == r.duration_ms
            &&& s.total_damage == r.total_damage
            &&& s.jobs.len() == r.jobs@.len()
            &&& forall|k: int| 0 <= k < r.jobs@.len() ==> #[trigger] s.jobs[k] == r.jobs@[k]@
            &&& s.job_ids == r.job_ids@
            &&& s.is_train == r.is_train
            &&& !s.is_live
            &&& s.app_version == r.app_version@
            &&& s.mob_code == r.mob_code
        }),
{
}

/// The fights of a replay that are kept: those with the most damage. `damages`
/// tells how much was done in each.
pub fn top_fights<T>(fights: Vec<T>, damages: &Vec<i64>) -> (kept: Vec<T>)
    requires
        fights@.len() == damages@.len(),
    ensures
        exists|ranked: Seq<T>| #[trigger]
            ranked_by(ranked, fights@, damages@) && kept@ == ranked.take(
                kept_of(fights@.len()) as int,
            ),
{
    let ghost all = fights@;
    let mut kept: Vec<T> = rank(fights, damages);
    let ghost ranked = kept@;
    kept.truncate(REPLAY_FIGHTS_KEPT);
    proof {
        assert(ranked.len() == all.len());
        if all.len() < REPLAY_FIGHTS_KEPT {
            assert(ranked.take(all.len() as int) =~= ranked);
        }
    }
    kept
}

} // verus!
