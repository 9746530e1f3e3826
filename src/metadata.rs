//! Fedora CoreOS metadata: the upstream documents and the node metadata keys.
use vstd::prelude::*;

verus! {

/// Payload encoding tag.
pub const SCHEME: &'static str = "org.fedoraproject.coreos.scheme";

/// Zero-based position of a release in the age-ordered sequence.
pub const AGE_INDEX: &'static str = "org.fedoraproject.coreos.releases.age_index";

/// Literal `"true"` iff the release is a dead end.
pub const DEADEND: &'static str = "org.fedoraproject.coreos.updates.deadend";

/// Free-form dead-end reason, or `"generic"`.
pub const DEADEND_REASON: &'static str = "org.fedoraproject.coreos.updates.deadend_reason";

/// Rollout ramp length in minutes, as a decimal string.
pub const DURATION: &'static str = "org.fedoraproject.coreos.updates.duration_minutes";

/// Rollout start, in Unix seconds, as a decimal string.
pub const START_EPOCH: &'static str = "org.fedoraproject.coreos.updates.start_epoch";

/// Rollout initial fraction, as a decimal string.
pub const START_VALUE: &'static str = "org.fedoraproject.coreos.updates.start_value";

/// Templated URL of the release index.
pub const RELEASES_JSON: &'static str = "https://builds.coreos.fedoraproject.org/prod/streams/${stream}/releases.json";

/// Templated URL of the stream updates metadata.
pub const STREAM_JSON: &'static str = "https://builds.coreos.fedoraproject.org/updates/${stream}.json";

/// Fedora CoreOS release index.
pub struct ReleasesJSON {
    pub releases: Vec<Release>,
}

pub struct Release {
    pub commits: Vec<ReleaseCommit>,
    pub version: String,
    pub metadata: String,
}

pub struct ReleaseCommit {
    pub architecture: String,
    pub checksum: String,
}

/// Fedora CoreOS updates metadata.
pub struct UpdatesJSON {
    pub updates: Updates,
}

pub struct Updates {
    pub barriers: Vec<UpdateBarrier>,
    pub deadends: Vec<UpdateDeadend>,
    pub rollouts: Vec<UpdateRollout>,
}

pub struct UpdateBarrier {
    pub version: String,
    pub reason: String,
}

pub struct UpdateDeadend {
    pub version: String,
    pub reason: String,
}

pub struct UpdateRollout {
    pub version: String,
    pub start_epoch: String,
    pub start_value: String,
    pub duration_minutes: Option<String>,
}

/// Value of the first entry whose key is `k`.
pub open spec fn lookup(entries: Seq<(String, String)>, k: Seq<char>) -> Option<Seq<char>>
    decreases entries.len(),
{
    if entries.len() == 0 {
        None
    } else if entries[0].0@ == k {
        Some(entries[0].1@)
    } else {
        lookup(entries.drop_first(), k)
    }
}

pub proof fn lemma_lookup_found(entries: Seq<(String, String)>, k: Seq<char>, i: int)
    requires
        0 <= i < entries.len(),
        entries[i].0@ == k,
        forall|j: int| 0 <= j < i ==> entries[j].0@ != k,
    ensures
        lookup(entries, k) == Some(entries[i].1@),
    decreases i,
{
    if i > 0 {
        lemma_lookup_found(entries.drop_first(), k, i - 1);
    }
}

pub proof fn lemma_lookup_absent(entries: Seq<(String, String)>, k: Seq<char>)
    requires
        forall|j: int| 0 <= j < entries.len() ==> entries[j].0@ != k,
    ensures
        lookup(entries, k) == None::<Seq<char>>,
    decreases entries.len(),
{
    if entries.len() > 0 {
        lemma_lookup_absent(entries.drop_first(), k);
    }
}

pub proof fn lemma_lookup_update(entries: Seq<(String, String)>, i: int, x: (String, String), k: Seq<char>)
    requires
        0 <= i < entries.len(),
        entries[i].0@ != k,
        x.0@ != k,
    ensures
        lookup(entries.update(i, x), k) == lookup(entries, k),
    decreases i,
{
    if i > 0 {
        lemma_lookup_update(entries.drop_first(), i - 1, x, k);
        assert(entries.update(i, x).drop_first() =~= entries.drop_first().update(i - 1, x));
    } else {
        assert(entries.update(i, x).drop_first() =~= entries.drop_first());
    }
}

pub proof fn lemma_lookup_push(entries: Seq<(String, String)>, x: (String, String), k: Seq<char>)
    ensures
        lookup(entries.push(x), k) == (if lookup(entries, k) is Some {
            lookup(entries, k)
        } else if x.0@ == k {
            Some(x.1@)
        } else {
            None
        }),
    decreases entries.len(),
{
    if entries.len() > 0 {
        lemma_lookup_push(entries.drop_first(), x, k);
        assert(entries.push(x)[0] == entries[0]);
        assert(entries.push(x).drop_first() =~= entries.drop_first().push(x));
    } else {
        assert(entries.push(x).drop_first() =~= Seq::<(String, String)>::empty());
        assert(entries.push(x)[0] == x);
        assert(lookup(entries.push(x).drop_first(), k) == None::<Seq<char>>);
    }
}

/// No key occurs twice.
pub open spec fn keys_unique(entries: Seq<(String, String)>) -> bool {
    forall|i: int, j: int|
        0 <= i < entries.len() && 0 <= j < entries.len() && i != j ==> entries[i].0@ != entries[j].0@
}

/// Sets the value stored under `key`, replacing a previous one.
pub fn insert(entries: &mut Vec<(String, String)>, key: String, value: String)
    requires
        keys_unique(old(entries)@),
    ensures
        keys_unique(final(entries)@),
        lookup(final(entries)@, key@) == Some(value@),
        forall|k: Seq<char>| k != key@ ==> #[trigger] lookup(final(entries)@, k) == lookup(old(entries)@, k),
{
    let mut i: usize = 0;
    while i < entries.len()
        invariant
            i <= entries@.len(),
            entries@ == old(entries)@,
            keys_unique(entries@),
            forall|j: int| 0 <= j < i ==> entries@[j].0@ != key@,
        decreases entries@.len() - i,
    {
        if entries[i].0 == key {
            let ghost before = entries@;
            entries.set(i, (key, value));
            proof {
                assert forall|k: Seq<char>| k != entries@[i as int].0@ implies #[trigger] lookup(entries@, k) == lookup(before, k) by {
                    lemma_lookup_update(before, i as int, entries@[i as int], k);
                }
                lemma_lookup_found(entries@, entries@[i as int].0@, i as int);
                assert forall|a: int| 0 <= a < entries@.len() implies #[trigger] entries@[a].0@ == before[a].0@ by {}
            }
            return;
        }
        i = i + 1;
    }
    let ghost before = entries@;
    proof { lemma_lookup_absent(before, key@); }
    entries.push((key, value));
    proof {
        let x = entries@[entries@.len() - 1];
        assert(entries@ =~= before.push(x));
        assert forall|a: int| 0 <= a < before.len() implies #[trigger] entries@[a] == before[a] by {}
        lemma_lookup_push(before, x, x.0@);
        assert forall|k: Seq<char>| k != x.0@ implies #[trigger] lookup(entries@, k) == lookup(before, k) by {
            lemma_lookup_push(before, x, k);
        }
    }
}

/// Finds the value stored under `key`.
pub fn get<'a>(entries: &'a Vec<(String, String)>, key: &str) -> (r: Option<&'a String>)
    ensures
        match r {
            Some(v) => lookup(entries@, key@) == Some(v@),
            None => lookup(entries@, key@) == None::<Seq<char>>,
        },
{
    let owned = key.to_owned();
    let mut i: usize = 0;
    while i < entries.len()
        invariant
            i <= entries@.len(),
            owned@ == key@,
            forall|j: int| 0 <= j < i ==> entries@[j].0@ != key@,
        decreases entries@.len() - i,
    {
        if entries[i].0 == owned {
            proof { lemma_lookup_found(entries@, key@, i as int); }
            return Some(&entries[i].1);
        }
        i = i + 1;
    }
    proof { lemma_lookup_absent(entries@, key@); }
    None
}

} // verus!
