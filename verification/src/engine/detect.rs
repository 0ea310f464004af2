//! Auto-detection of running games: matching process strings against the
//! profiles' targets, and the scanner's search / monitor cycle.
use vstd::prelude::*;
use crate::config::{AutoDetectTarget, Profile};
use crate::constants::{AUTODETECT_LOST_PAUSE_MS, AUTODETECT_MONITOR_INTERVAL_MS, AUTODETECT_SEARCH_INTERVAL_MS};
use crate::text::{chars_of, contains_chars, contains_seq, lowercase, push_char, to_lowercase};

verus! {

/// What the scanner reports.
#[derive(Debug, Clone, Copy, PartialEq, Eq, Structural)]
pub enum DetectEvent {
    /// A profile's auto-detect target matched a running process.
    Found(u128),
    /// The previously-detected process is no longer running.
    Lost,
}

/// Some process string contains the fragment, lower-cased.
pub open spec fn fragment_found(frag: Seq<char>, procs: Seq<Seq<char>>) -> bool {
    exists|i: int| 0 <= i < procs.len() && contains_seq(#[trigger] procs[i], lowercase(frag))
}

/// A target matches when it has fragments and every one of them is found.
pub open spec fn target_matches(t: AutoDetectTarget, procs: Seq<Seq<char>>) -> bool {
    t.fragments@.len() > 0 && forall|k: int| 0 <= k < t.fragments@.len() ==> fragment_found(
        (#[trigger] t.fragments@[k])@,
        procs,
    )
}

/// Some auto-detect target of the profile matches.
pub open spec fn profile_matches_spec(p: Profile, procs: Seq<Seq<char>>) -> bool {
    exists|j: int| 0 <= j < p.auto_detect@.len() && target_matches(#[trigger] p.auto_detect@[j], procs)
}

/// The views of a list of strings.
pub open spec fn views(v: Seq<String>) -> Seq<Seq<char>> {
    v.map_values(|s: String| s@)
}

fn fragment_found_exec(frag: &String, procs: &Vec<Vec<char>>) -> (r: bool)
    ensures
        r == fragment_found(frag@, procs@.map_values(|v: Vec<char>| v@)),
{
    let lower = to_lowercase(frag.as_str());
    let lc = chars_of(lower.as_str());
    let ghost pv = procs@.map_values(|v: Vec<char>| v@);
    let mut i: usize = 0;
    while i < procs.len()
        invariant
            pv == procs@.map_values(|v: Vec<char>| v@),
            lc@ == lowercase(frag@),
            i <= procs@.len(),
            forall|k: int| 0 <= k < i ==> !contains_seq(#[trigger] pv[k], lowercase(frag@)),
        decreases procs@.len() - i,
    {
        if contains_chars(procs[i].as_slice(), lc.as_slice()) {
            proof {
                assert(contains_seq(pv[i as int], lowercase(frag@)));
            }
            return true;
        }
        i = i + 1;
    }
    false
}

/// Whether any of `profile`'s auto-detect targets match the process strings
/// (which are already lower-case): a target matches when it has at least one
/// fragment and each fragment, lower-cased, occurs in some process string.
pub fn profile_matches(profile: &Profile, proc_strings: &Vec<String>) -> (r: bool)
    ensures
        r == profile_matches_spec(*profile, views(proc_strings@)),
{
    let mut procs: Vec<Vec<char>> = Vec::new();
    let mut i: usize = 0;
    while i < proc_strings.len()
        invariant
            i <= proc_strings@.len(),
            procs@.map_values(|v: Vec<char>| v@) == views(proc_strings@.take(i as int)),
        decreases proc_strings@.len() - i,
    {
        let ghost prev = procs@;
        let cs = chars_of(proc_strings[i].as_str());
        procs.push(cs);
        proof {
            assert(procs@.map_values(|v: Vec<char>| v@) =~= prev.map_values(|v: Vec<char>| v@).push(cs@));
            assert(views(proc_strings@.take(i + 1)) =~= views(proc_strings@.take(i as int)).push(proc_strings@[i as int]@));
        }
        i = i + 1;
    }
    proof {
        assert(proc_strings@.take(proc_strings@.len() as int) =~= proc_strings@);
    }
    let ghost pv = views(proc_strings@);
    let mut j: usize = 0;
    while j < profile.auto_detect.len()
        invariant
            procs@.map_values(|v: Vec<char>| v@) == pv,
            pv == views(proc_strings@),
            j <= profile.auto_detect@.len(),
            forall|k: int| 0 <= k < j ==> !target_matches(#[trigger] profile.auto_detect@[k], pv),
        decreases profile.auto_detect@.len() - j,
    {
        let t = &profile.auto_detect[j];
        if t.fragments.len() > 0 {
            let mut all = true;
            let mut k: usize = 0;
            while k < t.fragments.len()
                invariant
                    procs@.map_values(|v: Vec<char>| v@) == pv,
                    k <= t.fragments@.len(),
                    all ==> forall|m: int| 0 <= m < k ==> fragment_found((#[trigger] t.fragments@[m])@, pv),
                    !all ==> !target_matches(*t, pv),
                decreases t.fragments@.len() - k,
            {
                if !fragment_found_exec(&t.fragments[k], &procs) {
                    all = false;
                }
                k = k + 1;
            }
            if all {
                proof {
                    assert(target_matches(*t, pv));
                }
                return true;
            }
        }
        j = j + 1;
    }
    false
}

/// A fragment counts as running when some process string contains it,
/// lower-cased.
pub open spec fn fragment_running(frag: Seq<char>, procs: Seq<Seq<char>>) -> bool {
    exists|i: int| 0 <= i < procs.len() && #[trigger] contains_seq(procs[i], lowercase(frag))
}

proof fn lemma_target_unfold(t: AutoDetectTarget, procs: Seq<Seq<char>>)
    ensures
        target_matches(t, procs) <==> (t.fragments@.len() > 0 && forall|k: int|
            0 <= k < t.fragments@.len() ==> fragment_running(#[trigger] t.fragments@[k]@, procs)),
{
    assert forall|k: int| 0 <= k < t.fragments@.len() implies fragment_found(#[trigger] t.fragments@[k]@, procs)
        == fragment_running(t.fragments@[k]@, procs) by {
        let f = t.fragments@[k]@;
        if fragment_found(f, procs) {
            let i = choose|i: int| 0 <= i < procs.len() && contains_seq(#[trigger] procs[i], lowercase(f));
            assert(contains_seq(procs[i], lowercase(f)));
        }
        if fragment_running(f, procs) {
            let i = choose|i: int| 0 <= i < procs.len() && #[trigger] contains_seq(procs[i], lowercase(f));
            assert(contains_seq(procs[i], lowercase(f)));
        }
    }
}

/// A profile is selected by the running processes exactly when one of its
/// auto-detect targets has fragments and every one of them, lower-cased,
/// occurs in some process string; and a fragment that occurs in no process
/// string rules its target out, however many of the others are found.
pub proof fn law_every_fragment_must_be_running(p: Profile, procs: Seq<Seq<char>>)
    ensures
        profile_matches_spec(p, procs) <==> exists|j: int|
            0 <= j < p.auto_detect@.len() && (#[trigger] p.auto_detect@[j]).fragments@.len() > 0 && forall|k: int|
                0 <= k < p.auto_detect@[j].fragments@.len() ==> fragment_running(
                    #[trigger] p.auto_detect@[j].fragments@[k]@,
                    procs,
                ),
        forall|j: int, k: int|
            0 <= j < p.auto_detect@.len() && 0 <= k < p.auto_detect@[j].fragments@.len() && !fragment_running(
                #[trigger] p.auto_detect@[j].fragments@[k]@,
                procs,
            ) ==> !target_matches(p.auto_detect@[j], procs),
{
    assert forall|j: int| 0 <= j < p.auto_detect@.len() implies target_matches(#[trigger] p.auto_detect@[j], procs)
        == (p.auto_detect@[j].fragments@.len() > 0 && forall|k: int|
            0 <= k < p.auto_detect@[j].fragments@.len() ==> fragment_running(
                #[trigger] p.auto_detect@[j].fragments@[k]@,
                procs,
            )) by {
        lemma_target_unfold(p.auto_detect@[j], procs);
    }
}

/// What the scanner does after one look at the processes.
pub struct ScanDecision {
    /// The profile now being watched, if any.
    pub monitoring: Option<u128>,
    /// The event to report, if any.
    pub event: Option<DetectEvent>,
    /// How long to wait before the next look (0: look again at once).
    pub sleep_ms: u64,
}

/// The first profile with this identifier.
pub open spec fn profile_index(profiles: Seq<Profile>, id: u128) -> Option<int>
    decreases profiles.len(),
{
    if profiles.len() == 0 {
        None
    } else if profiles[0].id == id {
        Some(0)
    } else {
        match profile_index(profiles.drop_first(), id) {
            Some(i) => Some(i + 1),
            None => None,
        }
    }
}

/// The first profile whose targets match.
pub open spec fn first_matching(profiles: Seq<Profile>, procs: Seq<Seq<char>>) -> Option<int>
    decreases profiles.len(),
{
    if profiles.len() == 0 {
        None
    } else if profile_matches_spec(profiles[0], procs) {
        Some(0)
    } else {
        match first_matching(profiles.drop_first(), procs) {
            Some(i) => Some(i + 1),
            None => None,
        }
    }
}

/// The scanner's decision. Monitoring a profile: while it still matches,
/// keep monitoring and wait the monitor interval; otherwise report `Lost`,
/// stop monitoring and pause briefly. Searching: the first matching profile
/// is reported `Found` and monitored at once; otherwise wait the search
/// interval.
pub open spec fn scan_spec(profiles: Seq<Profile>, monitoring: Option<u128>, procs: Seq<Seq<char>>) -> (Option<u128>, Option<DetectEvent>, u64) {
    match monitoring {
        Some(id) => {
            let alive = match profile_index(profiles, id) {
                Some(i) => profile_matches_spec(profiles[i], procs),
                None => false,
            };
            if alive {
                (Some(id), None, AUTODETECT_MONITOR_INTERVAL_MS)
            } else {
                (None, Some(DetectEvent::Lost), AUTODETECT_LOST_PAUSE_MS)
            }
        },
        None => match first_matching(profiles, procs) {
            Some(i) => (Some(profiles[i].id), Some(DetectEvent::Found(profiles[i].id)), 0),
            None => (None, None, AUTODETECT_SEARCH_INTERVAL_MS),
        },
    }
}

proof fn lemma_profile_index(profiles: Seq<Profile>, id: u128, i: int)
    requires
        0 <= i < profiles.len(),
        profiles[i].id == id,
        forall|j: int| 0 <= j < i ==> profiles[j].id != id,
    ensures
        profile_index(profiles, id) == Some(i),
    decreases i,
{
    if i > 0 {
        assert forall|j: int| 0 <= j < i - 1 implies profiles.drop_first()[j].id != id by {
            assert(profiles.drop_first()[j] == profiles[j + 1]);
        }
        lemma_profile_index(profiles.drop_first(), id, i - 1);
    }
}

proof fn lemma_profile_index_none(profiles: Seq<Profile>, id: u128)
    requires
        forall|j: int| 0 <= j < profiles.len() ==> profiles[j].id != id,
    ensures
        profile_index(profiles, id) is None,
    decreases profiles.len(),
{
    if profiles.len() > 0 {
        assert forall|j: int| 0 <= j < profiles.len() - 1 implies profiles.drop_first()[j].id != id by {
            assert(profiles.drop_first()[j] == profiles[j + 1]);
        }
        lemma_profile_index_none(profiles.drop_first(), id);
    }
}

proof fn lemma_first_matching(profiles: Seq<Profile>, procs: Seq<Seq<char>>, i: int)
    requires
        0 <= i < profiles.len(),
        profile_matches_spec(profiles[i], procs),
        forall|j: int| 0 <= j < i ==> !profile_matches_spec(profiles[j], procs),
    ensures
        first_matching(profiles, procs) == Some(i),
    decreases i,
{
    if i > 0 {
        assert forall|j: int| 0 <= j < i - 1 implies !profile_matches_spec(profiles.drop_first()[j], procs) by {
            assert(profiles.drop_first()[j] == profiles[j + 1]);
        }
        lemma_first_matching(profiles.drop_first(), procs, i - 1);
    }
}

proof fn lemma_first_matching_none(profiles: Seq<Profile>, procs: Seq<Seq<char>>)
    requires
        forall|j: int| 0 <= j < profiles.len() ==> !profile_matches_spec(profiles[j], procs),
    ensures
        first_matching(profiles, procs) is None,
    decreases profiles.len(),
{
    if profiles.len() > 0 {
        assert forall|j: int| 0 <= j < profiles.len() - 1 implies !profile_matches_spec(profiles.drop_first()[j], procs) by {
            assert(profiles.drop_first()[j] == profiles[j + 1]);
        }
        lemma_first_matching_none(profiles.drop_first(), procs);
    }
}

/// One round of the scanner: given the profiles, the profile being watched
/// and the current process strings, what to watch, report and wait.
pub fn scanner_step(profiles: &Vec<Profile>, monitoring: Option<u128>, proc_strings: &Vec<String>) -> (d: ScanDecision)
    ensures
        (d.monitoring, d.event, d.sleep_ms) == scan_spec(profiles@, monitoring, views(proc_strings@)),
{
    let ghost procs = views(proc_strings@);
    match monitoring {
        Some(id) => {
            let alive = match find_profile(profiles, id) {
                Some(i) => profile_matches(&profiles[i], proc_strings),
                None => false,
            };
            if alive {
                ScanDecision { monitoring: Some(id), event: None, sleep_ms: AUTODETECT_MONITOR_INTERVAL_MS }
            } else {
                ScanDecision { monitoring: None, event: Some(DetectEvent::Lost), sleep_ms: AUTODETECT_LOST_PAUSE_MS }
            }
        },
        None => {
            let mut i: usize = 0;
            while i < profiles.len()
                invariant
                    i <= profiles@.len(),
                    forall|j: int| 0 <= j < i ==> !profile_matches_spec(profiles@[j], procs),
                    procs == views(proc_strings@),
                    monitoring is None,
                decreases profiles@.len() - i,
            {
                if profile_matches(&profiles[i], proc_strings) {
                    proof {
                        lemma_first_matching(profiles@, procs, i as int);
                    }
                    let id = profiles[i].id;
                    let d = ScanDecision { monitoring: Some(id), event: Some(DetectEvent::Found(id)), sleep_ms: 0 };
                    proof {
                        assert(scan_spec(profiles@, monitoring, procs) == (Some(id), Some(DetectEvent::Found(id)), 0u64));
                    }
                    return d;
                }
                i = i + 1;
            }
            proof {
                lemma_first_matching_none(profiles@, procs);
            }
            ScanDecision { monitoring: None, event: None, sleep_ms: AUTODETECT_SEARCH_INTERVAL_MS }
        },
    }
}

/// The position of the first profile with this identifier.
pub fn find_profile(profiles: &Vec<Profile>, id: u128) -> (r: Option<usize>)
    ensures
        r matches Some(i) ==> profile_index(profiles@, id) == Some(i as int) && i < profiles@.len(),
        r is None ==> profile_index(profiles@, id) is None,
{
    let mut i: usize = 0;
    while i < profiles.len()
        invariant
            i <= profiles@.len(),
            forall|j: int| 0 <= j < i ==> profiles@[j].id != id,
        decreases profiles@.len() - i,
    {
        if profiles[i].id == id {
            proof {
                lemma_profile_index(profiles@, id, i as int);
            }
            return Some(i);
        }
        i = i + 1;
    }
    proof {
        lemma_profile_index_none(profiles@, id);
    }
    None
}

/// A process command line as text: each byte is one character (Latin-1),
/// with the NUL separators turned into spaces.
pub open spec fn cmdline_chars(bytes: Seq<u8>) -> Seq<char> {
    bytes.map_values(|b: u8| if b == 0 { ' ' } else { b as char })
}

/// Turns the NUL-separated bytes of `/proc/<pid>/cmdline` into a string.
pub fn cmdline_text(bytes: &[u8]) -> (r: String)
    ensures
        r@ == cmdline_chars(bytes@),
{
    let mut r = String::new();
    let mut i: usize = 0;
    while i < bytes.len()
        invariant
            i <= bytes@.len(),
            r@ == cmdline_chars(bytes@.take(i as int)),
        decreases bytes@.len() - i,
    {
        let b = bytes[i];
        let c: char = if b == 0 { ' ' } else { b as char };
        push_char(&mut r, c);
        proof {
            assert(cmdline_chars(bytes@.take(i + 1)) =~= cmdline_chars(bytes@.take(i as int)).push(c));
        }
        i = i + 1;
    }
    proof {
        assert(bytes@.take(bytes@.len() as int) =~= bytes@);
    }
    r
}

/// The first matching profile is a profile, and it matches.
pub proof fn lemma_first_matching_facts(profiles: Seq<Profile>, procs: Seq<Seq<char>>)
    ensures
        first_matching(profiles, procs) matches Some(i) ==> 0 <= i < profiles.len() && profile_matches_spec(
            profiles[i],
            procs,
        ),
    decreases profiles.len(),
{
    if profiles.len() > 0 {
        lemma_first_matching_facts(profiles.drop_first(), procs);
        if let Some(j) = first_matching(profiles.drop_first(), procs) {
            if !profile_matches_spec(profiles[0], procs) {
                assert(profiles.drop_first()[j] == profiles[j + 1]);
            }
        }
    }
}

/// With distinct identifiers, a profile is found by its own identifier.
pub proof fn lemma_profile_index_unique(profiles: Seq<Profile>, i: int)
    requires
        0 <= i < profiles.len(),
        forall|a: int, b: int| 0 <= a < b < profiles.len() ==> profiles[a].id != profiles[b].id,
    ensures
        profile_index(profiles, profiles[i].id) == Some(i),
{
    lemma_profile_index(profiles, profiles[i].id, i);
}

} // verus!
