//! Modification-time evidence of a candidate and the entries observed below it.
use vstd::prelude::*;
use vstd::hash_map::StringHashMap;

use crate::evidence::{ActivityEvidence, ActivitySource, ActivityStatus, CandidateCoverage, ScanIssue};
use crate::model::{CleanupItemFingerprint, EntryKind, ScanEntry};
use crate::path::{components, path_components, texts, components_equal, components_prefix};
use crate::recommend::{candidate_coverage, has_issue_below, has_unknown_scope};
use crate::text::string_from_chars;

verus! {

/// Nanoseconds in one day.
pub const NANOS_PER_DAY: i128 = 86_400_000_000_000;

/// The later of two optional timestamps.
pub open spec fn max_time(a: Option<i64>, b: Option<i64>) -> Option<i64> {
    match (a, b) {
        (Some(x), Some(y)) => Some(if x >= y { x } else { y }),
        (Some(x), None) => Some(x),
        (None, Some(y)) => Some(y),
        (None, None) => None,
    }
}

pub fn max_datetime(a: Option<i64>, b: Option<i64>) -> (res: Option<i64>)
    ensures
        res == max_time(a, b),
{
    match (a, b) {
        (Some(x), Some(y)) => Some(if x >= y { x } else { y }),
        (Some(x), None) => Some(x),
        (None, Some(y)) => Some(y),
        (None, None) => None,
    }
}

/// The components of entry `j`.
pub open spec fn entry_comps(entries: Seq<ScanEntry>, j: int) -> Seq<Seq<char>> {
    components(entries[j].path@)
}

/// An entry that an index over `dirs_only` holds: every entry, or the directories only.
pub open spec fn indexed(e: ScanEntry, dirs_only: bool) -> bool {
    !dirs_only || e.kind == EntryKind::Directory
}

/// Some indexed entry has exactly the components `comps`.
pub open spec fn has_entry_in(entries: Seq<ScanEntry>, comps: Seq<Seq<char>>, dirs_only: bool) -> bool {
    exists|j: int| 0 <= j < entries.len() && indexed(entries[j], dirs_only) && #[trigger] entry_comps(entries, j) == comps
}

/// Some entry has exactly the components `comps`.
pub open spec fn has_entry_at(entries: Seq<ScanEntry>, comps: Seq<Seq<char>>) -> bool {
    has_entry_in(entries, comps, false)
}

/// No later indexed entry names the path of entry `j`.
pub open spec fn last_in(entries: Seq<ScanEntry>, j: int, dirs_only: bool) -> bool {
    forall|k: int| j < k < entries.len() && indexed(entries[k], dirs_only) ==> #[trigger] entry_comps(entries, k) != entry_comps(entries, j)
}

/// Entry `j` is the last entry naming its path; earlier entries for the same path are superseded.
pub open spec fn last_of_path(entries: Seq<ScanEntry>, j: int) -> bool {
    last_in(entries, j, false)
}

/// Entry `j` lies strictly below `base`, and every directory between them is an entry too:
/// its observations reach `base` through the scanned tree.
pub open spec fn reaches(entries: Seq<ScanEntry>, base: Seq<Seq<char>>, j: int) -> bool {
    let c = entry_comps(entries, j);
    &&& base.is_prefix_of(c)
    &&& base.len() < c.len()
    &&& forall|k: int| base.len() < k < c.len() ==> #[trigger] has_entry_at(entries, c.take(k))
}

/// Entry `j` contributes to the activity of the tree at `base`.
pub open spec fn contributes(entries: Seq<ScanEntry>, base: Seq<Seq<char>>, j: int) -> bool {
    last_of_path(entries, j) && reaches(entries, base, j)
}

/// Aggregated activity of the tree at `base`, from the first `k` entries:
/// the latest descendant timestamp, whether some descendant has none, and whether some
/// descendant is after `as_of`.
pub open spec fn descendant_facts(entries: Seq<ScanEntry>, base: Seq<Seq<char>>, as_of: i64, k: int) -> (Option<i64>, bool, bool)
    decreases k,
{
    if k <= 0 {
        (None, false, false)
    } else {
        let prev = descendant_facts(entries, base, as_of, k - 1);
        let j = k - 1;
        if contributes(entries, base, j) {
            let t = entries[j].modified_at;
            (max_time(prev.0, t), prev.1 || t is None, prev.2 || (t matches Some(x) && x > as_of))
        } else {
            prev
        }
    }
}

/// The timestamp of the last entry among the first `k` whose components are `base`
/// (`None` when there is no such entry).
pub open spec fn path_time(entries: Seq<ScanEntry>, base: Seq<Seq<char>>, k: int) -> Option<Option<i64>>
    decreases k,
{
    if k <= 0 {
        None
    } else if entry_comps(entries, k - 1) == base {
        Some(entries[k - 1].modified_at)
    } else {
        path_time(entries, base, k - 1)
    }
}

/// The observed activity of the tree at a candidate's path.
pub struct ActivityFacts {
    pub latest_observed_modified_at: Option<i64>,
    pub own_latest: Option<i64>,
    pub descendant_latest: Option<i64>,
    pub has_missing_timestamp: bool,
    pub has_after_as_of: bool,
}

/// The activity facts of the tree at entry `own`'s path, against `as_of`, given the scan's issues.
/// Where several entries name the path, the last one holds its own timestamp.
pub open spec fn facts_of(entries: Seq<ScanEntry>, own: int, as_of: i64, issues: Seq<ScanIssue>) -> ActivityFacts {
    let base = entry_comps(entries, own);
    let d = descendant_facts(entries, base, as_of, entries.len() as int);
    let t = path_time(entries, base, entries.len() as int).unwrap();
    ActivityFacts {
        latest_observed_modified_at: max_time(t, d.0),
        own_latest: t,
        descendant_latest: d.0,
        has_missing_timestamp: t is None || d.1 || has_unknown_scope(issues) || has_issue_below(issues, entries[own].path@),
        has_after_as_of: (t matches Some(x) && x > as_of) || d.2,
    }
}

/// Which timestamps the latest observed one came from.
pub open spec fn source_of(own: Option<i64>, descendant: Option<i64>) -> ActivitySource {
    match (own, descendant) {
        (None, None) => ActivitySource::Unavailable,
        (Some(_), None) => ActivitySource::Own,
        (None, Some(_)) => ActivitySource::Descendant,
        (Some(o), Some(d)) => if o == d {
            ActivitySource::OwnAndDescendant
        } else if o > d {
            ActivitySource::Own
        } else {
            ActivitySource::Descendant
        },
    }
}

/// A timestamp after `as_of` wins, then incomplete coverage, then a missing timestamp.
pub open spec fn status_of(has_after_as_of: bool, coverage: CandidateCoverage, has_missing_timestamp: bool) -> ActivityStatus {
    if has_after_as_of {
        ActivityStatus::AfterAsOf
    } else if coverage != CandidateCoverage::Complete {
        ActivityStatus::Partial
    } else if has_missing_timestamp {
        ActivityStatus::Missing
    } else {
        ActivityStatus::Complete
    }
}

/// Whole days from `t` to `as_of`, saturating at `u32::MAX`; none when `t` is after `as_of`.
pub open spec fn age_days_of(as_of: i64, t: i64) -> Option<u32> {
    let elapsed = as_of - t;
    if elapsed >= 0 {
        let days = elapsed / (NANOS_PER_DAY as int);
        Some(if days > u32::MAX { u32::MAX } else { days as u32 })
    } else {
        None
    }
}

/// The evidence that activity facts give for a candidate of the given coverage.
pub open spec fn evidence_of(facts: ActivityFacts, coverage: CandidateCoverage, as_of: i64) -> ActivityEvidence {
    let status = status_of(facts.has_after_as_of, coverage, facts.has_missing_timestamp);
    let effective = if status == ActivityStatus::Complete { facts.latest_observed_modified_at } else { None };
    ActivityEvidence {
        latest_observed_modified_at: facts.latest_observed_modified_at,
        effective_modified_at: effective,
        source: source_of(facts.own_latest, facts.descendant_latest),
        status,
        age_days: match effective {
            Some(t) => age_days_of(as_of, t),
            None => None,
        },
    }
}

fn activity_source(own: Option<i64>, descendant: Option<i64>) -> (res: ActivitySource)
    ensures
        res == source_of(own, descendant),
{
    match (own, descendant) {
        (None, None) => ActivitySource::Unavailable,
        (Some(_), None) => ActivitySource::Own,
        (None, Some(_)) => ActivitySource::Descendant,
        (Some(o), Some(d)) => if o == d {
            ActivitySource::OwnAndDescendant
        } else if o > d {
            ActivitySource::Own
        } else {
            ActivitySource::Descendant
        },
    }
}

/// Whole days from `t` to `as_of`, saturating at `u32::MAX`; none when `t` is after `as_of`.
pub fn age_days(as_of: i64, t: i64) -> (res: Option<u32>)
    ensures
        res == age_days_of(as_of, t),
{
    let elapsed: i128 = as_of as i128 - t as i128;
    if elapsed >= 0 {
        let days: i128 = elapsed / NANOS_PER_DAY;
        if days > u32::MAX as i128 {
            Some(u32::MAX)
        } else {
            Some(days as u32)
        }
    } else {
        None
    }
}

impl ActivityFacts {
    /// The evidence these facts give for a candidate of the given coverage.
    pub fn into_evidence(self, coverage: CandidateCoverage, as_of: i64) -> (res: ActivityEvidence)
        ensures
            res == evidence_of(self, coverage, as_of),
    {
        let status = if self.has_after_as_of {
            ActivityStatus::AfterAsOf
        } else if coverage != CandidateCoverage::Complete {
            ActivityStatus::Partial
        } else if self.has_missing_timestamp {
            ActivityStatus::Missing
        } else {
            ActivityStatus::Complete
        };
        let effective = if status == ActivityStatus::Complete { self.latest_observed_modified_at } else { None };
        let age = match effective {
            Some(t) => age_days(as_of, t),
            None => None,
        };
        ActivityEvidence {
            latest_observed_modified_at: self.latest_observed_modified_at,
            effective_modified_at: effective,
            source: activity_source(self.own_latest, self.descendant_latest),
            status,
            age_days: age,
        }
    }
}

/// The canonical key of a component sequence: each component followed by a separator.
pub open spec fn comps_key(comps: Seq<Seq<char>>) -> Seq<char>
    decreases comps.len(),
{
    if comps.len() == 0 {
        Seq::empty()
    } else {
        comps_key(comps.drop_last()) + comps.last() + seq!['/']
    }
}

fn comps_key_exec(comps: &Vec<Vec<char>>, n: usize) -> (res: String)
    requires
        n <= comps@.len(),
    ensures
        res@ == comps_key(texts(comps@).take(n as int)),
{
    let mut chars: Vec<char> = Vec::new();
    let mut i: usize = 0;
    assert(texts(comps@).take(0) =~= Seq::<Seq<char>>::empty());
    while i < n
        invariant
            i <= n <= comps@.len(),
            chars@ == comps_key(texts(comps@).take(i as int)),
        decreases n - i,
    {
        let ghost before = chars@;
        let c = &comps[i];
        let mut k: usize = 0;
        while k < c.len()
            invariant
                k <= c@.len(),
                chars@ == before + c@.take(k as int),
            decreases c.len() - k,
        {
            chars.push(c[k]);
            assert(before + c@.take(k + 1) =~= (before + c@.take(k as int)).push(c@[k as int]));
            k = k + 1;
        }
        chars.push('/');
        proof {
            let t = texts(comps@).take(i + 1);
            assert(t.drop_last() =~= texts(comps@).take(i as int));
            assert(t.last() == c@);
            assert(c@.take(c@.len() as int) =~= c@);
            assert(chars@ =~= comps_key(t.drop_last()) + t.last() + seq!['/']);
        }
        i = i + 1;
    }
    string_from_chars(chars.as_slice())
}

/// Entries indexed by the canonical key of their components.
struct PathIndex {
    comps: Vec<Vec<Vec<char>>>,
    by_key: StringHashMap<Vec<usize>>,
    dirs_only: bool,
}

impl PathIndex {
    spec fn wf(&self, entries: Seq<ScanEntry>) -> bool {
        &&& self.comps@.len() == entries.len()
        &&& forall|j: int| 0 <= j < entries.len() ==> texts(#[trigger] self.comps@[j]@) == entry_comps(entries, j)
        &&& forall|j: int| 0 <= j < entries.len() && indexed(entries[j], self.dirs_only) ==> #[trigger] self.by_key@.contains_key(comps_key(entry_comps(entries, j)))
            && self.by_key@[comps_key(entry_comps(entries, j))]@.contains(j as usize)
        &&& forall|key: Seq<char>, m: int| #![trigger self.by_key@[key]@[m]] self.by_key@.contains_key(key) && 0 <= m < self.by_key@[key]@.len()
            ==> (self.by_key@[key]@[m] as int) < entries.len() && comps_key(entry_comps(entries, self.by_key@[key]@[m] as int)) == key
                && indexed(entries[self.by_key@[key]@[m] as int], self.dirs_only)
    }

    #[verifier::spinoff_prover]
    #[verifier::rlimit(40)]
    fn build(entries: &[ScanEntry], dirs_only: bool) -> (res: Self)
        ensures
            res.wf(entries@),
            res.dirs_only == dirs_only,
    {
        let mut comps: Vec<Vec<Vec<char>>> = Vec::new();
        let mut by_key: StringHashMap<Vec<usize>> = StringHashMap::new();
        let mut j: usize = 0;
        while j < entries.len()
            invariant
                j <= entries@.len(),
                comps@.len() == j,
                forall|i: int| 0 <= i < j ==> texts(#[trigger] comps@[i]@) == entry_comps(entries@, i),
                forall|i: int| 0 <= i < j && indexed(entries@[i], dirs_only) ==> #[trigger] by_key@.contains_key(comps_key(entry_comps(entries@, i)))
                    && by_key@[comps_key(entry_comps(entries@, i))]@.contains(i as usize),
                forall|key: Seq<char>, m: int| #![trigger by_key@[key]@[m]] by_key@.contains_key(key) && 0 <= m < by_key@[key]@.len()
                    ==> (by_key@[key]@[m] as int) < j && comps_key(entry_comps(entries@, by_key@[key]@[m] as int)) == key
                        && indexed(entries@[by_key@[key]@[m] as int], dirs_only),
            decreases entries.len() - j,
        {
            let ghost map0 = by_key@;
            let c = path_components(entries[j].path.as_str());
            let ghost c_view = texts(c@);
            assert(c_view == entry_comps(entries@, j as int));
            if !dirs_only || entries[j].kind == EntryKind::Directory {
                let key = comps_key_exec(&c, c.len());
                proof {
                    assert(texts(c@).take(c@.len() as int) =~= texts(c@));
                }
                let mut bucket: Vec<usize> = Vec::new();
                match by_key.get(key.as_str()) {
                    Some(existing) => {
                        let mut m: usize = 0;
                        while m < existing.len()
                            invariant
                                m <= existing@.len(),
                                bucket@ == existing@.take(m as int),
                            decreases existing.len() - m,
                        {
                            bucket.push(existing[m]);
                            assert(existing@.take(m + 1) =~= existing@.take(m as int).push(existing@[m as int]));
                            m = m + 1;
                        }
                        assert(existing@.take(existing@.len() as int) =~= existing@);
                        assert(bucket@ == by_key@[key@]@);
                    },
                    None => {
                        assert(!by_key@.contains_key(key@));
                    },
                }
                assert(by_key@.contains_key(key@) ==> bucket@ == by_key@[key@]@);
                let ghost old_map = by_key@;
                let ghost old_bucket = bucket@;
                bucket.push(j);
                let ghost new_bucket = bucket@;
                let ghost key_view = key@;
                by_key.insert(key, bucket);
                proof {
                    let k0 = comps_key(entry_comps(entries@, j as int));
                    assert(old_map == map0);
                    assert(key_view == k0);
                    assert(by_key@.contains_key(k0));
                    assert(by_key@[k0]@ == new_bucket);
                    assert(new_bucket == old_bucket.push(j));
                    assert(new_bucket[old_bucket.len() as int] == j);
                    assert(by_key@[k0]@.contains(j));
                    assert forall|i: int| 0 <= i < j + 1 && indexed(entries@[i], dirs_only) implies #[trigger] by_key@.contains_key(comps_key(entry_comps(entries@, i)))
                        && by_key@[comps_key(entry_comps(entries@, i))]@.contains(i as usize) by {
                        if i < j {
                            let ki = comps_key(entry_comps(entries@, i));
                            assert(map0.contains_key(ki));
                            assert(old_map.contains_key(ki));
                            assert(old_map[ki]@.contains(i as usize));
                            if ki == k0 {
                                let m = choose|m: int| 0 <= m < old_map[ki]@.len() && old_map[ki]@[m] == i as usize;
                                assert(by_key@[k0]@[m] == i as usize);
                            } else {
                                assert(by_key@[ki] == old_map[ki]);
                            }
                        } else {
                            assert(by_key@[k0]@[old_bucket.len() as int] == j);
                        }
                    }
                    assert forall|key: Seq<char>, m: int| #![trigger by_key@[key]@[m]] by_key@.contains_key(key) && 0 <= m < by_key@[key]@.len()
                        implies (by_key@[key]@[m] as int) < j + 1 && comps_key(entry_comps(entries@, by_key@[key]@[m] as int)) == key
                            && indexed(entries@[by_key@[key]@[m] as int], dirs_only) by {
                        if key == k0 {
                            if m < old_bucket.len() {
                                assert(old_map.contains_key(key));
                            }
                        }
                    }
                }
            } else {
                proof {
                    assert(!indexed(entries@[j as int], dirs_only));
                    assert forall|i: int| 0 <= i < j + 1 && indexed(entries@[i], dirs_only) implies #[trigger] by_key@.contains_key(comps_key(entry_comps(entries@, i)))
                        && by_key@[comps_key(entry_comps(entries@, i))]@.contains(i as usize) by {
                        assert(i < j);
                    }
                }
            }
            assert(forall|i: int| 0 <= i < j + 1 && indexed(entries@[i], dirs_only) ==> #[trigger] by_key@.contains_key(comps_key(entry_comps(entries@, i))));
            assert(forall|i: int| 0 <= i < j + 1 && indexed(entries@[i], dirs_only) ==> #[trigger] by_key@.contains_key(comps_key(entry_comps(entries@, i)))
                        && by_key@[comps_key(entry_comps(entries@, i))]@.contains(i as usize));
            comps.push(c);
            proof {
                assert forall|i: int| 0 <= i < j + 1 implies texts(#[trigger] comps@[i]@) == entry_comps(entries@, i) by {
                    if i < j {
                        assert(comps@[i] == comps@.drop_last()[i]);
                    }
                }
            }
            assert(forall|i: int| 0 <= i < j + 1 && indexed(entries@[i], dirs_only) ==> #[trigger] by_key@.contains_key(comps_key(entry_comps(entries@, i)))
                        && by_key@[comps_key(entry_comps(entries@, i))]@.contains(i as usize));
            j = j + 1;
        }
        PathIndex { comps, by_key, dirs_only }
    }

    /// Whether some entry has exactly the first `n` components of `comps`.
    fn has_entry(&self, entries: &[ScanEntry], comps: &Vec<Vec<char>>, n: usize) -> (res: bool)
        requires
            self.wf(entries@),
            n <= comps@.len(),
        ensures
            res == has_entry_in(entries@, texts(comps@).take(n as int), self.dirs_only),
    {
        let len = entries.len();
        let key = comps_key_exec(comps, n);
        let mut prefix: Vec<Vec<char>> = Vec::new();
        let mut i: usize = 0;
        while i < n
            invariant
                i <= n <= comps@.len(),
                texts(prefix@) == texts(comps@).take(i as int),
            decreases n - i,
        {
            let mut copy: Vec<char> = Vec::new();
            let c = &comps[i];
            let mut k: usize = 0;
            while k < c.len()
                invariant
                    k <= c@.len(),
                    copy@ == c@.take(k as int),
                decreases c.len() - k,
            {
                copy.push(c[k]);
                assert(c@.take(k + 1) =~= c@.take(k as int).push(c@[k as int]));
                k = k + 1;
            }
            assert(c@.take(c@.len() as int) =~= c@);
            let ghost before = prefix@;
            let ghost copy_view = copy@;
            prefix.push(copy);
            assert(texts(prefix@) =~= texts(comps@).take(i + 1)) by {
                assert(texts(prefix@) =~= texts(before).push(copy_view));
            }
            i = i + 1;
        }
        let ghost target = texts(comps@).take(n as int);
        match self.by_key.get(key.as_str()) {
            None => {
                proof {
                    assert(!self.by_key@.contains_key(key@));
                    assert(key@ == comps_key(target));
                    assert forall|j: int| 0 <= j < entries@.len() && indexed(entries@[j], self.dirs_only) implies #[trigger] entry_comps(entries@, j) != target by {
                        assert(self.by_key@.contains_key(comps_key(entry_comps(entries@, j))));
                        if entry_comps(entries@, j) == target {
                            assert(comps_key(entry_comps(entries@, j)) == key@);
                        }
                    }
                }
                false
            },
            Some(bucket) => {
                let mut m: usize = 0;
                while m < bucket.len()
                    invariant
                        self.wf(entries@),
                        len == entries@.len(),
                        self.by_key@.contains_key(key@),
                        bucket@ == self.by_key@[key@]@,
                        key@ == comps_key(target),
                        texts(prefix@) == target,
                        target == texts(comps@).take(n as int),
                        m <= bucket@.len(),
                        forall|q: int| 0 <= q < m ==> entry_comps(entries@, #[trigger] bucket@[q] as int) != target,
                    decreases bucket.len() - m,
                {
                    let idx = bucket[m];
                    assert(self.by_key@[key@]@[m as int] == idx);
                    if components_equal(&self.comps[idx], &prefix) {
                        assert(entry_comps(entries@, idx as int) == target);
                        return true;
                    }
                    m = m + 1;
                }
                proof {
                    assert forall|j: int| 0 <= j < entries@.len() && indexed(entries@[j], self.dirs_only) implies #[trigger] entry_comps(entries@, j) != target by {
                        if entry_comps(entries@, j) == target {
                            assert(self.by_key@.contains_key(comps_key(entry_comps(entries@, j))));
                            assert(self.by_key@[comps_key(entry_comps(entries@, j))]@.contains(j as usize));
                            assert(comps_key(entry_comps(entries@, j)) == key@);
                            assert(bucket@.contains(j as usize));
                            let q = choose|q: int| 0 <= q < bucket@.len() && bucket@[q] == j as usize;
                            assert(entry_comps(entries@, bucket@[q] as int) != target);
                        }
                    }
                }
                false
            },
        }
    }

    /// Whether no later entry has the same components as entry `j`.
    fn is_last(&self, entries: &[ScanEntry], j: usize) -> (res: bool)
        requires
            self.wf(entries@),
            j < entries@.len(),
            indexed(entries@[j as int], self.dirs_only),
        ensures
            res == last_in(entries@, j as int, self.dirs_only),
    {
        let len = entries.len();
        let own = &self.comps[j];
        let key = comps_key_exec(own, own.len());
        proof {
            assert(texts(own@).take(own@.len() as int) =~= texts(own@));
            assert(self.by_key@.contains_key(comps_key(entry_comps(entries@, j as int))));
        }
        match self.by_key.get(key.as_str()) {
            None => true,
            Some(bucket) => {
                let mut m: usize = 0;
                while m < bucket.len()
                    invariant
                        self.wf(entries@),
                        j < entries@.len(),
                        len == entries@.len(),
                        self.by_key@.contains_key(key@),
                        bucket@ == self.by_key@[key@]@,
                        key@ == comps_key(entry_comps(entries@, j as int)),
                        m <= bucket@.len(),
                        forall|q: int| 0 <= q < m && (#[trigger] bucket@[q] as int) > j ==> entry_comps(entries@, bucket@[q] as int) != entry_comps(entries@, j as int),
                    decreases bucket.len() - m,
                {
                    let idx = bucket[m];
                    assert(self.by_key@[key@]@[m as int] == idx);
                    if idx > j && components_equal(&self.comps[idx], &self.comps[j]) {
                        return false;
                    }
                    m = m + 1;
                }
                proof {
                    assert forall|k: int| j < k < entries@.len() && indexed(entries@[k], self.dirs_only) implies #[trigger] entry_comps(entries@, k) != entry_comps(entries@, j as int) by {
                        if entry_comps(entries@, k) == entry_comps(entries@, j as int) {
                            assert(self.by_key@.contains_key(comps_key(entry_comps(entries@, k))));
                            assert(self.by_key@[comps_key(entry_comps(entries@, k))]@.contains(k as usize));
                            assert(comps_key(entry_comps(entries@, k)) == key@);
                            assert(bucket@.contains(k as usize));
                            let q = choose|q: int| 0 <= q < bucket@.len() && bucket@[q] == k as usize;
                            assert((bucket@[q] as int) > j);
                        }
                    }
                }
                true
            },
        }
    }
}

/// Per-entry facts that the activity of every candidate is computed from.
struct EntryMarks {
    /// Entry `j` is the last entry naming its path.
    lasts: Vec<bool>,
    /// Every proper ancestor of entry `j` deeper than this many components is an entry too.
    floors: Vec<usize>,
}

impl EntryMarks {
    spec fn wf(&self, entries: Seq<ScanEntry>) -> bool {
        &&& self.lasts@.len() == entries.len()
        &&& self.floors@.len() == entries.len()
        &&& forall|j: int| 0 <= j < entries.len() ==> #[trigger] self.lasts@[j] == last_of_path(entries, j)
        &&& forall|j: int| 0 <= j < entries.len() ==> floor_holds(entries, j, #[trigger] self.floors@[j] as int, false)
    }
}

/// `f` bounds the gaps in the chain of entries above entry `j`: every ancestor deeper than
/// `f` components is an entry, and the ancestor of exactly `f` components (if `f > 0`) is not.
pub open spec fn floor_holds(entries: Seq<ScanEntry>, j: int, f: int, dirs_only: bool) -> bool {
    let c = entry_comps(entries, j);
    &&& 0 <= f
    &&& (f == 0 || (f < c.len() && !has_entry_in(entries, c.take(f), dirs_only)))
    &&& forall|k: int| f < k < c.len() ==> #[trigger] has_entry_in(entries, c.take(k), dirs_only)
}

proof fn lemma_reaches_by_floor(entries: Seq<ScanEntry>, base: Seq<Seq<char>>, j: int, f: int)
    requires
        floor_holds(entries, j, f, false),
    ensures
        reaches(entries, base, j) == (base.is_prefix_of(entry_comps(entries, j)) && base.len() < entry_comps(entries, j).len() && base.len() >= f),
{
    let c = entry_comps(entries, j);
    if base.is_prefix_of(c) && base.len() < c.len() && base.len() < f {
        assert(!has_entry_at(entries, c.take(f)));
        assert(base.len() < f < c.len());
    }
}

impl PathIndex {
    /// The floor of the chain of entries above entry `j`.
    fn chain_floor(&self, entries: &[ScanEntry], j: usize) -> (f: usize)
        requires
            self.wf(entries@),
            j < entries@.len(),
        ensures
            floor_holds(entries@, j as int, f as int, self.dirs_only),
    {
        let c = &self.comps[j];
        let len = c.len();
        proof {
            assert(texts(c@) == entry_comps(entries@, j as int));
        }
        if len == 0 {
            return 0;
        }
        let mut k: usize = len - 1;
        while k > 0
            invariant
                self.wf(entries@),
                j < entries@.len(),
                c@ == self.comps@[j as int]@,
                texts(c@) == entry_comps(entries@, j as int),
                len == c@.len(),
                k < len,
                forall|q: int| k < q < len ==> #[trigger] has_entry_in(entries@, texts(c@).take(q), self.dirs_only),
            decreases k,
        {
            if !self.has_entry(entries, c, k) {
                return k;
            }
            k = k - 1;
        }
        0
    }

    fn marks(&self, entries: &[ScanEntry]) -> (res: EntryMarks)
        requires
            self.wf(entries@),
            !self.dirs_only,
        ensures
            res.wf(entries@),
    {
        let mut lasts: Vec<bool> = Vec::new();
        let mut floors: Vec<usize> = Vec::new();
        let mut j: usize = 0;
        while j < entries.len()
            invariant
                self.wf(entries@),
                !self.dirs_only,
                j <= entries@.len(),
                lasts@.len() == j,
                floors@.len() == j,
                forall|q: int| 0 <= q < j ==> #[trigger] lasts@[q] == last_of_path(entries@, q),
                forall|q: int| 0 <= q < j ==> floor_holds(entries@, q, #[trigger] floors@[q] as int, false),
            decreases entries.len() - j,
        {
            let last = self.is_last(entries, j);
            let floor = self.chain_floor(entries, j);
            lasts.push(last);
            floors.push(floor);
            j = j + 1;
        }
        EntryMarks { lasts, floors }
    }

    /// The activity facts of the tree at entry `i`'s path.
    fn candidate_facts(&self, marks: &EntryMarks, entries: &[ScanEntry], i: usize, as_of: i64, issues: &[ScanIssue]) -> (res: ActivityFacts)
        requires
            self.wf(entries@),
            marks.wf(entries@),
            !self.dirs_only,
            i < entries@.len(),
        ensures
            res == facts_of(entries@, i as int, as_of, issues@),
    {
        let base = &self.comps[i];
        let b = base.len();
        let ghost base_view = entry_comps(entries@, i as int);
        proof {
            assert(texts(base@) == base_view);
        }
        let mut latest: Option<i64> = None;
        let mut missing = false;
        let mut after = false;
        let mut found = false;
        let mut own: Option<i64> = None;
        let mut j: usize = 0;
        while j < entries.len()
            invariant
                self.wf(entries@),
                !self.dirs_only,
                marks.wf(entries@),
                i < entries@.len(),
                j <= entries@.len(),
                base@ == self.comps@[i as int]@,
                texts(base@) == base_view,
                b == base@.len(),
                (latest, missing, after) == descendant_facts(entries@, base_view, as_of, j as int),
                (if found { Some(own) } else { None }) == path_time(entries@, base_view, j as int),
            decreases entries.len() - j,
        {
            let cj = &self.comps[j];
            proof {
                assert(texts(cj@) == entry_comps(entries@, j as int));
            }
            if components_equal(cj, base) {
                found = true;
                own = entries[j].modified_at;
            }
            proof {
                lemma_reaches_by_floor(entries@, base_view, j as int, marks.floors@[j as int] as int);
            }
            if marks.lasts[j] && b < cj.len() && b >= marks.floors[j] && components_prefix(base, cj) {
                let t = entries[j].modified_at;
                latest = max_datetime(latest, t);
                missing = missing || t.is_none();
                after = after || match t {
                    Some(x) => x > as_of,
                    None => false,
                };
            }
            j = j + 1;
        }
        proof {
            assert(path_time(entries@, base_view, i as int + 1) is Some);
            lemma_path_time_found(entries@, base_view, i as int + 1, entries@.len() as int);
        }
        let coverage = candidate_coverage(entries[i].path.as_str(), issues);
        ActivityFacts {
            latest_observed_modified_at: max_datetime(own, latest),
            own_latest: own,
            descendant_latest: latest,
            has_missing_timestamp: own.is_none() || missing || coverage != CandidateCoverage::Complete,
            has_after_as_of: match own {
                Some(x) => x > as_of,
                None => false,
            } || after,
        }
    }
}

proof fn lemma_path_time_found(entries: Seq<ScanEntry>, base: Seq<Seq<char>>, k: int, m: int)
    requires
        k <= m,
        path_time(entries, base, k) is Some,
    ensures
        path_time(entries, base, m) is Some,
    decreases m - k,
{
    if k < m {
        lemma_path_time_found(entries, base, k, m - 1);
    }
}

/// The activity facts of every entry that some rule matched, by entry position; `None` for
/// the other entries.
pub fn activity_by_entry(entries: &[ScanEntry], as_of: i64, issues: &[ScanIssue]) -> (res: Vec<Option<ActivityFacts>>)
    ensures
        res@.len() == entries@.len(),
        forall|i: int| 0 <= i < entries@.len() ==> (#[trigger] res@[i] is Some <==> entries@[i].rule_hits@.len() > 0),
        forall|i: int| 0 <= i < entries@.len() && #[trigger] res@[i] is Some ==> res@[i]->0 == facts_of(entries@, i, as_of, issues@),
{
    let index = PathIndex::build(entries, false);
    let marks = index.marks(entries);
    let mut res: Vec<Option<ActivityFacts>> = Vec::new();
    let mut i: usize = 0;
    while i < entries.len()
        invariant
            index.wf(entries@),
            !index.dirs_only,
            marks.wf(entries@),
            i <= entries@.len(),
            res@.len() == i,
            forall|k: int| 0 <= k < i ==> (#[trigger] res@[k] is Some <==> entries@[k].rule_hits@.len() > 0),
            forall|k: int| 0 <= k < i && #[trigger] res@[k] is Some ==> res@[k]->0 == facts_of(entries@, k, as_of, issues@),
        decreases entries.len() - i,
    {
        if entries[i].rule_hits.len() > 0 {
            let facts = index.candidate_facts(&marks, entries, i, as_of, issues);
            res.push(Some(facts));
        } else {
            res.push(None);
        }
        i = i + 1;
    }
    res
}

/// Entry `j` lies strictly below `base`, with a directory entry at every path between them.
pub open spec fn below_through_dirs(entries: Seq<ScanEntry>, base: Seq<Seq<char>>, j: int) -> bool {
    let c = entry_comps(entries, j);
    &&& base.is_prefix_of(c)
    &&& base.len() < c.len()
    &&& forall|k: int| base.len() < k < c.len() ==> #[trigger] has_entry_in(entries, c.take(k), true)
}

/// The number of entries among the first `k` that lie below `base` through directory entries,
/// and the latest of their timestamps.
pub open spec fn tree_facts(entries: Seq<ScanEntry>, base: Seq<Seq<char>>, k: int) -> (nat, Option<i64>)
    decreases k,
{
    if k <= 0 {
        (0, None)
    } else {
        let prev = tree_facts(entries, base, k - 1);
        if below_through_dirs(entries, base, k - 1) {
            (prev.0 + 1, max_time(prev.1, entries[k - 1].modified_at))
        } else {
            prev
        }
    }
}

/// The position of the last directory entry among the first `k` whose components are `base`.
pub open spec fn last_dir_at(entries: Seq<ScanEntry>, base: Seq<Seq<char>>, k: int) -> Option<int>
    decreases k,
{
    if k <= 0 {
        None
    } else if entries[k - 1].kind == EntryKind::Directory && entry_comps(entries, k - 1) == base {
        Some(k - 1)
    } else {
        last_dir_at(entries, base, k - 1)
    }
}

/// The fingerprint of the directory tree at `base`: taken from the last directory entry there,
/// with the entries below it reached through directory entries.
pub open spec fn fingerprint_of(entries: Seq<ScanEntry>, base: Seq<Seq<char>>) -> Option<CleanupItemFingerprint> {
    match last_dir_at(entries, base, entries.len() as int) {
        None => None,
        Some(d) => {
            let facts = tree_facts(entries, base, entries.len() as int);
            Some(CleanupItemFingerprint {
                descendants: facts.0 as usize,
                total_size_bytes: entries[d].size_bytes,
                latest_modified_at: max_time(entries[d].modified_at, facts.1),
            })
        },
    }
}

proof fn lemma_below_by_floor(entries: Seq<ScanEntry>, base: Seq<Seq<char>>, j: int, f: int)
    requires
        floor_holds(entries, j, f, true),
    ensures
        below_through_dirs(entries, base, j) == (base.is_prefix_of(entry_comps(entries, j)) && base.len() < entry_comps(entries, j).len() && base.len() >= f),
{
    let c = entry_comps(entries, j);
    if base.is_prefix_of(c) && base.len() < c.len() && base.len() < f {
        assert(!has_entry_in(entries, c.take(f), true));
        assert(base.len() < f < c.len());
    }
}

proof fn lemma_tree_facts_bounded(entries: Seq<ScanEntry>, base: Seq<Seq<char>>, k: int)
    ensures
        tree_facts(entries, base, k).0 <= if k < 0 { 0 } else { k },
    decreases k,
{
    if k > 0 {
        lemma_tree_facts_bounded(entries, base, k - 1);
    }
}

/// The fingerprint of the directory tree at each of `paths`.
pub fn tree_fingerprints(entries: &[ScanEntry], paths: &[String]) -> (res: Vec<Option<CleanupItemFingerprint>>)
    ensures
        res@.len() == paths@.len(),
        forall|k: int| 0 <= k < paths@.len() ==> #[trigger] res@[k] == fingerprint_of(entries@, components(paths@[k]@)),
{
    let index = PathIndex::build(entries, true);
    let n = entries.len();
    let mut floors: Vec<usize> = Vec::new();
    let mut j: usize = 0;
    while j < n
        invariant
            index.wf(entries@),
            index.dirs_only,
            n == entries@.len(),
            j <= n,
            floors@.len() == j,
            forall|q: int| 0 <= q < j ==> floor_holds(entries@, q, #[trigger] floors@[q] as int, true),
        decreases n - j,
    {
        let f = index.chain_floor(entries, j);
        floors.push(f);
        j = j + 1;
    }
    let mut res: Vec<Option<CleanupItemFingerprint>> = Vec::new();
    let mut p: usize = 0;
    while p < paths.len()
        invariant
            index.wf(entries@),
            n == entries@.len(),
            floors@.len() == n,
            forall|q: int| 0 <= q < n ==> floor_holds(entries@, q, #[trigger] floors@[q] as int, true),
            p <= paths@.len(),
            res@.len() == p,
            forall|k: int| 0 <= k < p ==> #[trigger] res@[k] == fingerprint_of(entries@, components(paths@[k]@)),
        decreases paths.len() - p,
    {
        let base = path_components(paths[p].as_str());
        let ghost base_view = texts(base@);
        let b = base.len();
        let mut count: usize = 0;
        let mut latest: Option<i64> = None;
        let mut last_dir: Option<usize> = None;
        let mut j: usize = 0;
        while j < n
            invariant
                index.wf(entries@),
                n == entries@.len(),
                floors@.len() == n,
                forall|q: int| 0 <= q < n ==> floor_holds(entries@, q, #[trigger] floors@[q] as int, true),
                base_view == texts(base@),
                b == base@.len(),
                j <= n,
                (count as nat, latest) == tree_facts(entries@, base_view, j as int),
                match last_dir {
                    Some(d) => last_dir_at(entries@, base_view, j as int) == Some(d as int) && d < n,
                    None => last_dir_at(entries@, base_view, j as int) is None,
                },
            decreases n - j,
        {
            let cj = &index.comps[j];
            proof {
                assert(texts(cj@) == entry_comps(entries@, j as int));
                lemma_below_by_floor(entries@, base_view, j as int, floors@[j as int] as int);
                lemma_tree_facts_bounded(entries@, base_view, j as int);
            }
            if entries[j].kind == EntryKind::Directory && components_equal(cj, &base) {
                last_dir = Some(j);
            }
            if b < cj.len() && b >= floors[j] && components_prefix(&base, cj) {
                count = count + 1;
                latest = max_datetime(latest, entries[j].modified_at);
            }
            j = j + 1;
        }
        let fingerprint = match last_dir {
            None => None,
            Some(d) => Some(CleanupItemFingerprint {
                descendants: count,
                total_size_bytes: entries[d].size_bytes,
                latest_modified_at: max_datetime(entries[d].modified_at, latest),
            }),
        };
        res.push(fingerprint);
        p = p + 1;
    }
    res
}

} // verus!
