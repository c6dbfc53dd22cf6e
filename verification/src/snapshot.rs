//! A snapshot of the whole system, for diagnosis, assembled from what the
//! host reported. The supervisor's score is held in ten-thousandths.

use vstd::prelude::*;
use crate::text::{
    chars_of, first_word, first_word_of, lines, lines_of, parse_unsigned, spec_parse_unsigned, string_of,
};

verus! {

/// A snapshot of the whole system.
#[derive(Debug)]
pub struct SystemSnapshot {
    pub timestamp: String,
    pub uptime_seconds: u64,
    pub active_slot: String,
    /// Health score of the supervisor in ten-thousandths (0 when it did
    /// not answer).
    pub aqm_health_score_per_10k: u32,
    pub aqm_system_state: String,
    pub spaceone_services_active: usize,
    pub pending_dtn_bundles: u32,
    pub safe_mode_active: bool,
    pub last_reboot_reason: String,
}

/// What the host reported for a snapshot; a part is absent where its query
/// failed.
#[derive(Debug)]
pub struct HostReadings {
    pub timestamp: String,
    /// The text of `/proc/uptime`.
    pub uptime_text: Option<String>,
    /// The slot RAUC booted.
    pub boot_slot: Option<String>,
    /// The supervisor's score (ten-thousandths) and system state.
    pub health: Option<(u32, String)>,
    /// The units that systemd lists.
    pub services: Option<Vec<String>>,
    /// The bundles that the DTN daemon holds.
    pub pending_bundles: Option<u32>,
    pub safe_mode_active: bool,
    /// The last journal entries of `spaceone-core`.
    pub core_log: Option<String>,
}

/// The text before the first '.' (all of it when there is none).
pub open spec fn before_dot(s: Seq<char>) -> Seq<char>
    decreases s.len(),
{
    if s.len() == 0 || s[0] == '.' {
        Seq::empty()
    } else {
        seq![s[0]] + before_dot(s.drop_first())
    }
}

/// Whole seconds of uptime from `/proc/uptime`: the integer part of its
/// first field, 0 when it cannot be read.
pub open spec fn uptime_from(text: Option<Seq<char>>) -> u64 {
    match text {
        None => 0,
        Some(t) => match spec_parse_unsigned(before_dot(first_word(t)), u64::MAX as nat) {
            Some(v) => v as u64,
            None => 0,
        },
    }
}

/// `s` begins with `p`.
pub open spec fn starts_with(s: Seq<char>, p: Seq<char>) -> bool {
    p.len() <= s.len() && s.take(p.len() as int) == p
}

/// How many names begin with "spaceone-".
pub open spec fn spaceone_units(names: Seq<Seq<char>>) -> nat
    decreases names.len(),
{
    if names.len() == 0 {
        0
    } else {
        spaceone_units(names.drop_last()) + if starts_with(names.last(), "spaceone-"@) {
            1nat
        } else {
            0nat
        }
    }
}

/// The reason of the last reboot: the last line of the core log,
/// "unknown" when there is none.
pub open spec fn last_reboot_from(log: Option<Seq<char>>) -> Seq<char> {
    match log {
        Some(t) => if lines_of(t).len() > 0 {
            lines_of(t).last()
        } else {
            "unknown"@
        },
        None => "unknown"@,
    }
}

/// The snapshot that the readings give: the uptime; the booted slot or
/// "unknown"; the supervisor's score and state, or 0 and "unavailable";
/// the count of SpaceOne units; the pending bundles or 0; the safe-mode
/// flag; the last reboot reason.
pub open spec fn snapshot_of(s: SystemSnapshot, r: HostReadings) -> bool {
    &&& s.timestamp@ == r.timestamp@
    &&& s.uptime_seconds == uptime_from(match r.uptime_text {
        Some(t) => Some(t@),
        None => None,
    })
    &&& s.active_slot@ == (match r.boot_slot {
        Some(b) => b@,
        None => "unknown"@,
    })
    &&& s.aqm_health_score_per_10k == (match r.health {
        Some(h) => h.0,
        None => 0,
    })
    &&& s.aqm_system_state@ == (match r.health {
        Some(h) => h.1@,
        None => "unavailable"@,
    })
    &&& s.spaceone_services_active == (match r.services {
        Some(v) => spaceone_units(v@.map_values(|n: String| n@)),
        None => 0,
    })
    &&& s.pending_dtn_bundles == (match r.pending_bundles {
        Some(p) => p,
        None => 0,
    })
    &&& s.safe_mode_active == r.safe_mode_active
    &&& s.last_reboot_reason@ == last_reboot_from(match r.core_log {
        Some(t) => Some(t@),
        None => None,
    })
}

fn before_dot_of(s: &[char]) -> (v: Vec<char>)
    ensures
        v@ == before_dot(s@),
{
    let mut i: usize = 0;
    while i < s.len() && s[i] != '.'
        invariant
            i <= s@.len(),
            forall|j: int| 0 <= j < i ==> s@[j] != '.',
        decreases s@.len() - i,
    {
        i += 1;
    }
    let mut v: Vec<char> = Vec::new();
    let mut k: usize = 0;
    while k < i
        invariant
            k <= i <= s@.len(),
            v@ == s@.take(k as int),
        decreases i - k,
    {
        v.push(s[k]);
        k += 1;
        assert(v@ =~= s@.take(k as int));
    }
    proof {
        lemma_before_dot_at(s@, i as int);
    }
    v
}

proof fn lemma_before_dot_at(s: Seq<char>, i: int)
    requires
        0 <= i <= s.len(),
        forall|j: int| 0 <= j < i ==> s[j] != '.',
        i < s.len() ==> s[i] == '.',
    ensures
        before_dot(s) == s.take(i),
    decreases s.len(),
{
    if s.len() == 0 {
        assert(s.take(i) =~= Seq::<char>::empty());
    } else if i == 0 {
        assert(s.take(0) =~= Seq::<char>::empty());
    } else {
        assert forall|j: int| 0 <= j < i - 1 implies s.drop_first()[j] != '.' by {
            assert(s.drop_first()[j] == s[j + 1]);
        }
        lemma_before_dot_at(s.drop_first(), i - 1);
        assert(s.take(i) =~= seq![s[0]] + s.drop_first().take(i - 1));
    }
}

/// Whole seconds of uptime from the text of `/proc/uptime`.
pub fn uptime_seconds_of(text: &str) -> (r: u64)
    ensures
        r == uptime_from(Some(text@)),
{
    let cs = chars_of(text);
    let w = first_word_of(cs.as_slice());
    let whole = before_dot_of(w.as_slice());
    match parse_unsigned(whole.as_slice(), u64::MAX) {
        Some(v) => v,
        None => 0,
    }
}

fn starts_with_spaceone(name: &str) -> (r: bool)
    ensures
        r == starts_with(name@, "spaceone-"@),
{
    let cs = chars_of(name);
    let p = chars_of("spaceone-");
    proof {
        reveal_strlit("spaceone-");
    }
    if p.len() > cs.len() {
        return false;
    }
    let mut i: usize = 0;
    while i < p.len()
        invariant
            i <= p@.len() <= cs@.len(),
            p@ == "spaceone-"@,
            cs@ == name@,
            forall|j: int| 0 <= j < i ==> cs@[j] == p@[j],
        decreases p@.len() - i,
    {
        if cs[i] != p[i] {
            proof {
                assert(cs@.take(p@.len() as int)[i as int] != p@[i as int]);
            }
            return false;
        }
        i += 1;
    }
    assert(cs@.take(p@.len() as int) =~= p@);
    true
}

/// How many of the units are SpaceOne's.
pub fn count_spaceone_units(names: &Vec<String>) -> (n: usize)
    ensures
        n == spaceone_units(names@.map_values(|s: String| s@)),
{
    let mut n: usize = 0;
    let mut i: usize = 0;
    while i < names.len()
        invariant
            i <= names@.len(),
            n == spaceone_units(names@.take(i as int).map_values(|s: String| s@)),
            n <= i,
        decreases names@.len() - i,
    {
        proof {
            let a = names@.take(i + 1).map_values(|s: String| s@);
            assert(a.drop_last() =~= names@.take(i as int).map_values(|s: String| s@));
            assert(a.last() == names@[i as int]@);
        }
        if starts_with_spaceone(names[i].as_str()) {
            n += 1;
        }
        i += 1;
    }
    assert(names@.take(names@.len() as int) =~= names@);
    n
}

/// The last line of a log, "unknown" when it has none.
pub fn last_line_or_unknown(log: &str) -> (s: String)
    ensures
        s@ == last_reboot_from(Some(log@)),
{
    let cs = chars_of(log);
    let ls = lines(cs.as_slice());
    if ls.len() == 0 {
        proof {
            assert(lines_of(log@).len() == 0);
        }
        "unknown".to_string()
    } else {
        let k = ls.len() - 1;
        proof {
            assert(ls@.map_values(|l: Vec<char>| l@)[k as int] == ls@[k as int]@);
        }
        string_of(ls[k].as_slice())
    }
}

impl SystemSnapshot {
    /// The snapshot that the host's readings give.
    pub fn from_readings(r: HostReadings) -> (s: SystemSnapshot)
        ensures
            snapshot_of(s, r),
    {
        let uptime_seconds: u64 = match &r.uptime_text {
            Some(t) => uptime_seconds_of(t.as_str()),
            None => 0,
        };
        let spaceone_services_active: usize = match &r.services {
            Some(v) => count_spaceone_units(v),
            None => 0,
        };
        let last_reboot_reason = match &r.core_log {
            Some(t) => last_line_or_unknown(t.as_str()),
            None => "unknown".to_string(),
        };
        let active_slot = match r.boot_slot {
            Some(b) => b,
            None => "unknown".to_string(),
        };
        let (aqm_health_score_per_10k, aqm_system_state) = match r.health {
            Some(h) => h,
            None => (0u32, "unavailable".to_string()),
        };
        let pending_dtn_bundles: u32 = match r.pending_bundles {
            Some(p) => p,
            None => 0,
        };
        SystemSnapshot {
            timestamp: r.timestamp,
            uptime_seconds,
            active_slot,
            aqm_health_score_per_10k,
            aqm_system_state,
            spaceone_services_active,
            pending_dtn_bundles,
            safe_mode_active: r.safe_mode_active,
            last_reboot_reason,
        }
    }
}

} // verus!
