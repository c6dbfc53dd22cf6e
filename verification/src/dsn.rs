//! Relay through NASA's Deep Space Network (Goldstone, Canberra, Madrid):
//! choice of the complex that sees Mars, scheduling and transmission of
//! bundles. Radio quantities are integers in fine units (kHz, hundredths
//! of a dB or dBm, centimetres).

use vstd::prelude::*;
use crate::clock::{div_trunc, in_clock_range, now_rfc3339};

verus! {

/// An antenna of a complex.
#[derive(Debug)]
pub struct DsnDish {
    pub id: String,
    pub diameter_cm: u32,
    /// X-band, Ka-band or S-band.
    pub band: String,
    pub is_available: bool,
    pub is_scheduled: bool,
}

/// A DSN complex.
#[derive(Debug)]
pub struct DsnComplex {
    pub id: String,
    pub location: String,
    pub dishes: Vec<DsnDish>,
    pub is_visible_mars: bool,
    pub next_pass_start: Option<String>,
    pub next_pass_end: Option<String>,
}

/// Settings of the relay.
#[derive(Debug)]
pub struct DsnConfig {
    pub complexes: Vec<DsnComplex>,
    pub frequency_khz: u64,
    pub transmit_power_centi_dbm: i32,
    pub receive_sensitivity_centi_dbm: i32,
}

/// State of the link.
#[derive(Debug)]
pub struct DsnLinkStatus {
    pub active_complex: Option<String>,
    pub signal_strength_centi_db: i32,
    pub snr_centi_db: i32,
    /// Bit errors per billion bits.
    pub bit_error_rate_ppb: u32,
    pub round_trip_light_time_seconds: u32,
    pub doppler_shift_hz: i32,
    pub next_window_start: Option<String>,
    pub next_window_duration_minutes: u32,
}

/// Modulation of a transmission.
#[derive(Debug, Clone, Copy, PartialEq, Eq, Structural)]
pub enum DsnModulation {
    /// PCM/PSK/PM, the DSN standard.
    PcmPskPm,
    Bpsk,
    Qpsk,
}

/// Where a DSN bundle stands.
#[derive(Debug, Clone, Copy, PartialEq, Eq, Structural)]
pub enum DsnBundleStatus {
    Scheduled,
    Transmitting,
    InTransit,
    Delivered,
    Failed,
}

/// A bundle sent through the DSN.
#[derive(Debug)]
pub struct DsnBundle {
    pub id: String,
    pub payload: Vec<u8>,
    pub destination_eid: String,
    pub priority: u8,
    pub modulation: DsnModulation,
    pub scheduled_time: Option<String>,
    pub status: DsnBundleStatus,
}

/// Counts of the relay.
#[derive(Debug)]
pub struct DsnStats {
    pub delivered: u64,
    pub failed: u64,
    pub scheduled: usize,
    pub in_queue: usize,
    pub active_complex: Option<String>,
}

/// The first complex that sees Mars, if any.
pub open spec fn first_visible(cs: Seq<DsnComplex>) -> Option<int>
    decreases cs.len(),
{
    if cs.len() == 0 {
        None
    } else if cs[0].is_visible_mars {
        Some(0)
    } else {
        match first_visible(cs.drop_first()) {
            Some(i) => Some(i + 1),
            None => None,
        }
    }
}

/// The scheduled bundles, in order.
pub open spec fn still_scheduled(bs: Seq<DsnBundle>) -> Seq<DsnBundle>
    decreases bs.len(),
{
    if bs.len() == 0 {
        Seq::empty()
    } else if bs.last().status == DsnBundleStatus::Scheduled {
        still_scheduled(bs.drop_last()).push(bs.last())
    } else {
        still_scheduled(bs.drop_last())
    }
}

/// `t` is `b` handed to the DSN at time `stamp`.
pub open spec fn handed_over(t: DsnBundle, b: DsnBundle, stamp: Seq<char>) -> bool {
    &&& t.id == b.id
    &&& t.payload == b.payload
    &&& t.destination_eid == b.destination_eid
    &&& t.priority == b.priority
    &&& t.modulation == b.modulation
    &&& t.status == DsnBundleStatus::Transmitting
    &&& t.scheduled_time matches Some(s) && s@ == stamp
}

/// Whether two bundles hold the same values.
pub open spec fn same_bundle(a: DsnBundle, b: DsnBundle) -> bool {
    &&& a.id == b.id
    &&& a.payload@ == b.payload@
    &&& a.destination_eid == b.destination_eid
    &&& a.priority == b.priority
    &&& a.modulation == b.modulation
    &&& a.scheduled_time == b.scheduled_time
    &&& a.status == b.status
}

/// Each bundle of `sent` is the bundle of `src` at its place, handed to
/// the DSN at time `stamp`.
pub open spec fn all_handed_over(sent: Seq<DsnBundle>, src: Seq<DsnBundle>, stamp: Seq<char>) -> bool {
    forall|k: int| 0 <= k < sent.len() ==> handed_over(#[trigger] sent[k], src[k], stamp)
}

/// The relay.
pub struct DsnRelay {
    config: DsnConfig,
    active_complex: Option<String>,
    scheduled_bundles: Vec<DsnBundle>,
    transmit_queue: Vec<DsnBundle>,
    delivered_count: u64,
    failed_count: u64,
}

/// A copy of an optional text.
fn copy_text(s: &Option<String>) -> (r: Option<String>)
    ensures
        r == *s,
{
    match s {
        Some(t) => Some(t.clone()),
        None => None,
    }
}

/// A copy of a bundle.
fn copy_bundle(b: &DsnBundle) -> (r: DsnBundle)
    ensures
        same_bundle(r, *b),
{
    DsnBundle {
        id: b.id.clone(),
        payload: b.payload.clone(),
        destination_eid: b.destination_eid.clone(),
        priority: b.priority,
        modulation: b.modulation,
        scheduled_time: copy_text(&b.scheduled_time),
        status: b.status,
    }
}

impl DsnRelay {
    /// The complexes configured.
    pub closed spec fn complexes(self) -> Seq<DsnComplex> {
        self.config.complexes@
    }

    /// The complex in use.
    pub closed spec fn active(self) -> Option<String> {
        self.active_complex
    }

    /// The bundles waiting for transmission.
    pub closed spec fn scheduled(self) -> Seq<DsnBundle> {
        self.scheduled_bundles@
    }

    /// The bundles handed to the DSN.
    pub closed spec fn queue(self) -> Seq<DsnBundle> {
        self.transmit_queue@
    }

    /// Bundles reported delivered.
    pub closed spec fn delivered(self) -> u64 {
        self.delivered_count
    }

    /// Bundles reported failed.
    pub closed spec fn failed(self) -> u64 {
        self.failed_count
    }

    /// A relay with no complex chosen and nothing scheduled.
    pub fn new(config: DsnConfig) -> (r: Self)
        ensures
            r.complexes() == config.complexes@,
            r.active() is None,
            r.scheduled().len() == 0,
            r.queue().len() == 0,
            r.delivered() == 0,
            r.failed() == 0,
    {
        DsnRelay {
            config,
            active_complex: None,
            scheduled_bundles: Vec::new(),
            transmit_queue: Vec::new(),
            delivered_count: 0,
            failed_count: 0,
        }
    }

    /// Chooses the first complex that sees Mars (none when no complex
    /// does) and returns its identifier.
    pub fn select_active_complex(&mut self) -> (r: Option<String>)
        ensures
            match first_visible(old(self).complexes()) {
                Some(i) => r matches Some(id) && id == old(self).complexes()[i].id,
                None => r is None,
            },
            final(self).active() == r,
            final(self).complexes() == old(self).complexes(),
            final(self).delivered() == old(self).delivered(),
            final(self).failed() == old(self).failed(),
            final(self).scheduled() == old(self).scheduled(),
            final(self).queue() == old(self).queue(),
    {
        let cs = &self.config.complexes;
        let mut i: usize = 0;
        while i < cs.len() && !cs[i].is_visible_mars
            invariant
                i <= cs@.len(),
                forall|j: int| 0 <= j < i ==> !(#[trigger] cs@[j]).is_visible_mars,
            decreases cs@.len() - i,
        {
            i = i + 1;
        }
        proof {
            lemma_first_visible_at(cs@, i as int);
        }
        if i == cs.len() {
            self.active_complex = None;
            return None;
        }
        let id = cs[i].id.clone();
        self.active_complex = Some(id.clone());
        Some(id)
    }

    /// Schedules a bundle through the chosen complex; refused while no
    /// complex sees Mars.
    pub fn schedule_transmission(&mut self, bundle: DsnBundle) -> (r: Result<String, String>)
        ensures
            old(self).active() is None ==> {
                &&& r matches Err(e) && e@ == "No DSN complex available — waiting for Mars visibility"@
                &&& final(self).scheduled() == old(self).scheduled()
            },
            old(self).active() is Some ==> {
                &&& r matches Ok(id) && id == bundle.id
                &&& final(self).scheduled() == old(self).scheduled().push(
                    DsnBundle { status: DsnBundleStatus::Scheduled, ..bundle })
            },
            final(self).active() == old(self).active(),
            final(self).complexes() == old(self).complexes(),
            final(self).queue() == old(self).queue(),
            final(self).delivered() == old(self).delivered(),
            final(self).failed() == old(self).failed(),
    {
        if self.active_complex.is_none() {
            return Err("No DSN complex available — waiting for Mars visibility".to_string());
        }
        let id = bundle.id.clone();
        let mut scheduled = bundle;
        scheduled.status = DsnBundleStatus::Scheduled;
        self.scheduled_bundles.push(scheduled);
        Ok(id)
    }

    /// Hands every scheduled bundle to the DSN at time `stamp`: each is
    /// marked transmitting, stamped and queued; the schedule is emptied.
    pub fn transmit_scheduled_at(&mut self, stamp: &str) -> (sent: Vec<DsnBundle>)
        ensures
            sent@.len() == still_scheduled(old(self).scheduled()).len(),
            forall|k: int| 0 <= k < sent@.len() ==> handed_over(#[trigger] sent@[k], still_scheduled(old(self).scheduled())[k], stamp@),
            final(self).queue().len() == old(self).queue().len() + sent@.len(),
            final(self).queue().take(old(self).queue().len() as int) == old(self).queue(),
            forall|k: int| 0 <= k < sent@.len() ==> same_bundle(#[trigger] final(self).queue()[old(self).queue().len() + k], sent@[k]),
            final(self).scheduled().len() == 0,
            final(self).active() == old(self).active(),
            final(self).complexes() == old(self).complexes(),
            final(self).delivered() == old(self).delivered(),
            final(self).failed() == old(self).failed(),
    {
        let mut rest: Vec<DsnBundle> = Vec::new();
        std::mem::swap(&mut rest, &mut self.scheduled_bundles);
        let ghost all = rest@;
        let ghost q0 = self.transmit_queue@;
        let mut sent: Vec<DsnBundle> = Vec::new();
        while rest.len() > 0
            invariant
                rest@ == all.skip(all.len() - rest@.len()),
                rest@.len() <= all.len(),
                sent@.len() == still_scheduled(all.take(all.len() - rest@.len())).len(),
                forall|k: int| 0 <= k < sent@.len() ==> handed_over(#[trigger] sent@[k],
                    still_scheduled(all.take(all.len() - rest@.len()))[k], stamp@),
                self.transmit_queue@.len() == q0.len() + sent@.len(),
                self.transmit_queue@.take(q0.len() as int) == q0,
                forall|j: int| 0 <= j < sent@.len() ==> same_bundle(#[trigger] self.transmit_queue@[q0.len() + j], sent@[j]),
                self.scheduled_bundles@.len() == 0,
                self.delivered_count == old(self).delivered_count,
                self.failed_count == old(self).failed_count,
                self.active_complex == old(self).active_complex,
                self.config == old(self).config,
            decreases rest@.len(),
        {
            let ghost k = all.len() - rest@.len();
            let mut b = rest.remove(0);
            proof {
                assert(all.take(k + 1).drop_last() =~= all.take(k));
                assert(b == all[k]);
                assert(all.take(k + 1).last() == b);
                assert(rest@ =~= all.skip(k + 1));
            }
            if b.status == DsnBundleStatus::Scheduled {
                let ghost b0 = b;
                let ghost before = sent@;
                b.status = DsnBundleStatus::Transmitting;
                b.scheduled_time = Some(stamp.to_string());
                let copy = copy_bundle(&b);
                let ghost qb = self.transmit_queue@;
                self.transmit_queue.push(copy);
                sent.push(b);
                proof {
                    assert forall|j: int| 0 <= j < sent@.len() implies handed_over(#[trigger] sent@[j],
                        still_scheduled(all.take(k + 1))[j], stamp@) by {
                        if j < before.len() {
                            assert(sent@[j] == before[j]);
                        }
                    }
                    assert forall|j: int| 0 <= j < sent@.len() implies same_bundle(#[trigger] self.transmit_queue@[q0.len() + j], sent@[j]) by {
                        if j < before.len() {
                            assert(self.transmit_queue@[q0.len() + j] == qb[q0.len() + j]);
                            assert(sent@[j] == before[j]);
                        }
                    }
                    assert(self.transmit_queue@.take(q0.len() as int) =~= qb.take(q0.len() as int));
                }
            }
        }
        proof {
            assert(all.take(all.len() as int) =~= all);
        }
        sent
    }

    /// Hands every scheduled bundle to the DSN now.
    pub fn transmit_scheduled(&mut self) -> (sent: Vec<DsnBundle>)
        ensures
            sent@.len() == still_scheduled(old(self).scheduled()).len(),
            exists|stamp: Seq<char>| #[trigger] all_handed_over(sent@, still_scheduled(old(self).scheduled()), stamp),
            final(self).queue().len() == old(self).queue().len() + sent@.len(),
            final(self).queue().take(old(self).queue().len() as int) == old(self).queue(),
            forall|k: int| 0 <= k < sent@.len() ==> same_bundle(#[trigger] final(self).queue()[old(self).queue().len() + k], sent@[k]),
            final(self).delivered() == old(self).delivered(),
            final(self).failed() == old(self).failed(),
            final(self).scheduled().len() == 0,
            final(self).active() == old(self).active(),
            final(self).complexes() == old(self).complexes(),
    {
        let stamp = now_rfc3339();
        let sent = self.transmit_scheduled_at(stamp.as_str());
        proof {
            assert(all_handed_over(sent@, still_scheduled(old(self).scheduled()), stamp@));
        }
        sent
    }

    /// The link as planned at time `stamp`: the complex in use, nominal
    /// radio figures at Mars distance, and an 8-hour window opening now.
    pub fn link_status_at(&self, stamp: &str) -> (st: DsnLinkStatus)
        ensures
            st.active_complex == self.active(),
            st.signal_strength_centi_db == -14000,
            st.snr_centi_db == 1500,
            st.bit_error_rate_ppb == 1000,
            st.round_trip_light_time_seconds == 840,
            st.doppler_shift_hz == 2500,
            st.next_window_start matches Some(s) && s@ == stamp@,
            st.next_window_duration_minutes == 480,
    {
        DsnLinkStatus {
            active_complex: copy_text(&self.active_complex),
            signal_strength_centi_db: -14000,
            snr_centi_db: 1500,
            bit_error_rate_ppb: 1000,
            round_trip_light_time_seconds: 840,
            doppler_shift_hz: 2500,
            next_window_start: Some(stamp.to_string()),
            next_window_duration_minutes: 480,
        }
    }

    /// The link as planned now.
    pub fn link_status(&self) -> (st: DsnLinkStatus)
        ensures
            st.active_complex == self.active(),
            st.signal_strength_centi_db == -14000,
            st.snr_centi_db == 1500,
            st.bit_error_rate_ppb == 1000,
            st.round_trip_light_time_seconds == 840,
            st.doppler_shift_hz == 2500,
            st.next_window_start is Some,
            st.next_window_duration_minutes == 480,
    {
        let stamp = now_rfc3339();
        self.link_status_at(stamp.as_str())
    }

    /// Counts of the relay (no operation reports a bundle delivered or
    /// failed, so both stay zero).
    pub fn stats(&self) -> (st: DsnStats)
        ensures
            st.delivered == self.delivered(),
            st.failed == self.failed(),
            st.scheduled == self.scheduled().len(),
            st.in_queue == self.queue().len(),
            st.active_complex == self.active(),
    {
        DsnStats {
            delivered: self.delivered_count,
            failed: self.failed_count,
            scheduled: self.scheduled_bundles.len(),
            in_queue: self.transmit_queue.len(),
            active_complex: copy_text(&self.active_complex),
        }
    }
}

/// `first_visible` is the first complex that sees Mars.
pub proof fn lemma_first_visible_at(cs: Seq<DsnComplex>, p: int)
    requires
        0 <= p <= cs.len(),
        forall|j: int| 0 <= j < p ==> !(#[trigger] cs[j]).is_visible_mars,
        p < cs.len() ==> cs[p].is_visible_mars,
    ensures
        first_visible(cs) == if p < cs.len() { Some(p) } else { None::<int> },
    decreases cs.len(),
{
    if cs.len() > 0 && p > 0 {
        assert(!cs[0].is_visible_mars);
        assert forall|j: int| 0 <= j < p - 1 implies !(#[trigger] cs.drop_first()[j]).is_visible_mars by {
            assert(cs.drop_first()[j] == cs[j + 1]);
        }
        if p < cs.len() {
            assert(cs.drop_first()[p - 1] == cs[p]);
        }
        lemma_first_visible_at(cs.drop_first(), p - 1);
    }
}

} // verus!

verus! {

/// The DSN complex that sees Mars at an hour of the day (UTC), the Earth
/// turning under three complexes 120° apart: Canberra until 08:00, Madrid
/// until 16:00, Goldstone after.
pub open spec fn complex_for_hour(hour: u32) -> Seq<char> {
    if hour <= 7 {
        "DSS-43 (Canberra)"@
    } else if hour <= 15 {
        "DSS-54 (Madrid)"@
    } else {
        "DSS-14 (Goldstone)"@
    }
}

/// The complex that sees Mars at `hour` (UTC).
pub fn visible_complex_at_hour(hour: u32) -> (s: &'static str)
    ensures
        s@ == complex_for_hour(hour),
{
    if hour <= 7 {
        "DSS-43 (Canberra)"
    } else if hour <= 15 {
        "DSS-54 (Madrid)"
    } else {
        "DSS-14 (Goldstone)"
    }
}

/// A day counted from J2000 lies in a solar conjunction: the last nine days
/// of each 780-day synodic cycle (none before J2000).
pub open spec fn conjunction_on_day(days_since_j2000: i64) -> bool {
    days_since_j2000 >= 0 && days_since_j2000 % 780 > 770
}

/// Whether Mars is behind the Sun on a day counted from J2000.
pub fn in_solar_conjunction(days_since_j2000: i64) -> (r: bool)
    ensures
        r == conjunction_on_day(days_since_j2000),
{
    days_since_j2000 >= 0 && days_since_j2000 % 780 > 770
}

/// Hands a bundle to the relay as the link allows: refused during a solar
/// conjunction and while Mars is not visible, the relay untouched; else
/// the relay picks the complex that sees Mars and schedules the bundle.
pub fn send_through_relay(relay: &mut DsnRelay, solar_conjunction: bool, is_visible: bool, bundle: DsnBundle) -> (r:
    Result<String, String>)
    ensures
        solar_conjunction ==> {
            &&& r matches Err(e) && e@ == "Solar conjunction — no DSN contact possible"@
            &&& *final(relay) == *old(relay)
        },
        !solar_conjunction && !is_visible ==> {
            &&& r matches Err(e) && e@ == "Mars not visible — waiting for next pass"@
            &&& *final(relay) == *old(relay)
        },
        !solar_conjunction && is_visible ==> {
            &&& final(relay).active() == (match first_visible(old(relay).complexes()) {
                Some(i) => Some(old(relay).complexes()[i].id),
                None => None,
            })
            &&& first_visible(old(relay).complexes()) is None ==> {
                &&& r matches Err(e) && e@ == "No DSN complex available — waiting for Mars visibility"@
                &&& final(relay).scheduled() == old(relay).scheduled()
            }
            &&& first_visible(old(relay).complexes()) is Some ==> {
                &&& r matches Ok(id) && id == bundle.id
                &&& final(relay).scheduled() == old(relay).scheduled().push(
                    DsnBundle { status: DsnBundleStatus::Scheduled, ..bundle })
            }
            &&& final(relay).complexes() == old(relay).complexes()
            &&& final(relay).queue() == old(relay).queue()
            &&& final(relay).delivered() == old(relay).delivered()
            &&& final(relay).failed() == old(relay).failed()
        },
{
    if solar_conjunction {
        return Err("Solar conjunction — no DSN contact possible".to_string());
    }
    if !is_visible {
        return Err("Mars not visible — waiting for next pass".to_string());
    }
    relay.select_active_complex();
    relay.schedule_transmission(bundle)
}

} // verus!

verus! {

/// J2000 (2000-01-01 12:00:00 UTC) as Unix milliseconds.
pub const J2000_UNIX_MS: i64 = 946_728_000_000;

/// Whole days from J2000 to a Unix time in milliseconds, truncated toward
/// zero as `chrono::TimeDelta::num_days` does.
pub open spec fn days_from_j2000(now_ms: i64) -> int {
    div_trunc(now_ms - J2000_UNIX_MS, 86_400_000)
}

/// Whole days from J2000 to `now_ms`.
pub fn days_since_j2000(now_ms: i64) -> (d: i64)
    requires
        in_clock_range(now_ms),
    ensures
        d == days_from_j2000(now_ms),
{
    let span: i64 = now_ms - J2000_UNIX_MS;
    if span >= 0 {
        span / 86_400_000
    } else {
        -((-span) / 86_400_000)
    }
}

} // verus!
