//! One glider flight, and the reconciliation of a freshly fetched feed poll
//! into the day's locally kept flight list.
//!
//! The feed identifies a flight by a per-day number (`ogn_nb`), which is not
//! stable: a provisional flight carries a negative number that the feed may
//! reassign between polls.  The merge therefore matches by number first and,
//! failing that, considers a provisional incoming flight a correction for a
//! flight of the same glider.  Locally entered fields are never touched by
//! the feed; takeoff and landing are only filled while they still hold the
//! midnight sentinel.

use crate::temps::Time;
use vstd::prelude::*;

verus! {

/// One flight as the club records it over the day.
#[derive(Clone, Debug, PartialEq)]
pub struct Flight {
    /// Number the feed gave the flight for this day; negative while the
    /// feed considers it provisional.
    pub ogn_nb: i32,
    /// How the glider got airborne: `"T"` for winch, `"R"` for tow.
    pub takeoff_code: String,
    /// Registration of the winch or tow plane, empty if unknown.
    pub takeoff_machine: String,
    /// Pilot of the winch or tow plane.
    pub takeoff_machine_pilot: String,
    /// Registration of the glider.
    pub glider: String,
    /// Free-form club classification of the flight; never fed by the network.
    pub flight_code: String,
    /// First pilot; never fed by the network.
    pub pilot1: String,
    /// Second pilot; never fed by the network.
    pub pilot2: String,
    /// Takeoff time, midnight while not yet known.
    pub takeoff: Time,
    /// Landing time, midnight while not yet known.
    pub landing: Time,
}

/// The mathematical value of one flight.
pub struct FlightV {
    pub ogn_nb: i32,
    pub takeoff_code: Seq<char>,
    pub takeoff_machine: Seq<char>,
    pub takeoff_machine_pilot: Seq<char>,
    pub glider: Seq<char>,
    pub flight_code: Seq<char>,
    pub pilot1: Seq<char>,
    pub pilot2: Seq<char>,
    pub takeoff: Time,
    pub landing: Time,
}

impl View for Flight {
    type V = FlightV;

    open spec fn view(&self) -> FlightV {
        FlightV {
            ogn_nb: self.ogn_nb,
            takeoff_code: self.takeoff_code@,
            takeoff_machine: self.takeoff_machine@,
            takeoff_machine_pilot: self.takeoff_machine_pilot@,
            glider: self.glider@,
            flight_code: self.flight_code@,
            pilot1: self.pilot1@,
            pilot2: self.pilot2@,
            takeoff: self.takeoff,
            landing: self.landing,
        }
    }
}

impl DeepView for Flight {
    type V = FlightV;

    open spec fn deep_view(&self) -> FlightV {
        self.view()
    }
}

impl Default for Flight {
    /// The example flight the data model documents: number 1, winch launch
    /// by `F-REMA` driven by `YDL`, glider `F-CERJ` flown solo by Walt
    /// Disney from 13:00 to 14:00.
    fn default() -> (f: Flight)
        ensures
            f@ == spec_default_flight(),
    {
        let f = Flight {
            ogn_nb: 1,
            takeoff_code: String::from_str("T"),
            takeoff_machine: String::from_str("F-REMA"),
            takeoff_machine_pilot: String::from_str("YDL"),
            glider: String::from_str("F-CERJ"),
            flight_code: String::from_str("S"),
            pilot1: String::from_str("Walt Disney"),
            pilot2: String::new(),
            takeoff: Time { hour: 13, minute: 0, second: 0 },
            landing: Time { hour: 14, minute: 0, second: 0 },
        };
        f
    }
}

/// The value of the example default flight.
pub open spec fn spec_default_flight() -> FlightV {
    FlightV {
        ogn_nb: 1,
        takeoff_code: "T"@,
        takeoff_machine: "F-REMA"@,
        takeoff_machine_pilot: "YDL"@,
        glider: "F-CERJ"@,
        flight_code: "S"@,
        pilot1: "Walt Disney"@,
        pilot2: Seq::empty(),
        takeoff: Time { hour: 13, minute: 0, second: 0 },
        landing: Time { hour: 14, minute: 0, second: 0 },
    }
}

/// Matching by number: the fields still at their sentinel are filled from
/// the incoming flight, everything entered locally stays.
pub open spec fn rule1_fill(e: FlightV, f: FlightV) -> FlightV {
    FlightV {
        takeoff: if e.takeoff.is_sentinel() {
            f.takeoff
        } else {
            e.takeoff
        },
        landing: if e.landing.is_sentinel() {
            f.landing
        } else {
            e.landing
        },
        ..e
    }
}

/// Matching a provisional number by glider: the feed corrected itself, so
/// number, takeoff code and both times are taken wholesale.
pub open spec fn rule2_overwrite(e: FlightV, f: FlightV) -> FlightV {
    FlightV {
        ogn_nb: f.ogn_nb,
        takeoff_code: f.takeoff_code,
        takeoff: f.takeoff,
        landing: f.landing,
        ..e
    }
}

/// All flights sharing the incoming number, filled by rule 1.
pub open spec fn spec_fill_matches(flights: Seq<FlightV>, f: FlightV) -> Seq<FlightV> {
    flights.map_values(
        |e: FlightV|
            if e.ogn_nb == f.ogn_nb {
                rule1_fill(e, f)
            } else {
                e
            },
    )
}

/// Whether some existing flight already carries the incoming number.
pub open spec fn spec_has_id(flights: Seq<FlightV>, f: FlightV) -> bool {
    exists|j: int| 0 <= j < flights.len() && flights[j].ogn_nb == f.ogn_nb
}

/// Whether an existing flight can stand in for an incoming provisional one:
/// same glider, different number.
pub open spec fn spec_qualifies(e: FlightV, f: FlightV) -> bool {
    e.ogn_nb != f.ogn_nb && e.glider == f.glider
}

/// Index of the first existing flight of the same glider under another
/// number, `-1` if there is none.
pub open spec fn spec_glider_candidate(flights: Seq<FlightV>, f: FlightV) -> int
    decreases flights.len(),
{
    if flights.len() == 0 {
        -1
    } else if spec_qualifies(flights[0], f) {
        0
    } else {
        let rest = spec_glider_candidate(flights.drop_first(), f);
        if rest == -1 {
            -1
        } else {
            rest + 1
        }
    }
}

/// The merge walks the incoming list with one piece of carried state: the
/// priority (a provisional number, negative) of the last glider correction
/// it committed; a later provisional flight corrects again only when its
/// number out-ranks it.
pub struct MergeState {
    pub flights: Seq<FlightV>,
    pub priority: int,
}

/// One incoming flight applied to the carried state.  Matching by number
/// always takes priority: the glider rule is evaluated only when no
/// existing flight carries the incoming number, and its wholesale
/// correction is committed by the flight that selected the candidate.
pub open spec fn spec_merge_step(st: MergeState, f: FlightV) -> MergeState {
    let filled = spec_fill_matches(st.flights, f);
    let id_match = spec_has_id(st.flights, f);
    let g = spec_glider_candidate(st.flights, f);
    let fire = !id_match && f.ogn_nb < 0 && (st.priority == 0 || st.priority < f.ogn_nb) && g
        >= 0;
    let written = if fire {
        filled.update(g, rule2_overwrite(st.flights[g], f))
    } else {
        filled
    };
    MergeState {
        flights: if id_match || fire {
            written
        } else {
            written.push(f)
        },
        priority: if fire {
            f.ogn_nb as int
        } else {
            st.priority
        },
    }
}

/// The carried state after a whole incoming list.
pub open spec fn spec_merge_from(st: MergeState, incoming: Seq<FlightV>) -> MergeState
    decreases incoming.len(),
{
    if incoming.len() == 0 {
        st
    } else {
        spec_merge_from(spec_merge_step(st, incoming[0]), incoming.drop_first())
    }
}

/// The day's flight list after one feed poll has been reconciled into it.
pub open spec fn spec_merge(existing: Seq<FlightV>, incoming: Seq<FlightV>) -> Seq<FlightV> {
    spec_merge_from(MergeState { flights: existing, priority: 0 }, incoming).flights
}

/// What the recursive candidate search means: the first qualifying slot.
pub proof fn lemma_glider_candidate_props(s: Seq<FlightV>, f: FlightV)
    ensures
        spec_glider_candidate(s, f) == -1 ==> forall|i: int|
            0 <= i < s.len() ==> !spec_qualifies(s[i], f),
        spec_glider_candidate(s, f) != -1 ==> {
            let g = spec_glider_candidate(s, f);
            &&& 0 <= g < s.len()
            &&& spec_qualifies(s[g], f)
            &&& forall|i: int| 0 <= i < g ==> !spec_qualifies(s[i], f)
        },
    decreases s.len(),
{
    if s.len() > 0 && !spec_qualifies(s[0], f) {
        lemma_glider_candidate_props(s.drop_first(), f);
        let rest = spec_glider_candidate(s.drop_first(), f);
        if rest == -1 {
            assert forall|i: int| 0 <= i < s.len() implies !spec_qualifies(s[i], f) by {
                if i > 0 {
                    assert(s.drop_first()[i - 1] == s[i]);
                }
            }
        } else {
            assert(s.drop_first()[rest] == s[rest + 1]);
            assert forall|i: int| 0 <= i < rest + 1 implies !spec_qualifies(s[i], f) by {
                if i > 0 {
                    assert(s.drop_first()[i - 1] == s[i]);
                }
            }
        }
    }
}

/// Adding the fetched flights to the flights of the day: a flight seen
/// again by its number only has its still-unknown times filled, an
/// incoming provisional flight that matches no number corrects the first
/// flight of its glider, and flights the club has no record of are
/// appended.
pub fn update(existing: &mut Vec<Flight>, latest_flights: Vec<Flight>)
    ensures
        final(existing).deep_view() == spec_merge(
            old(existing).deep_view(),
            latest_flights.deep_view(),
        ),
{
    let ghost incoming: Seq<FlightV> = latest_flights.deep_view();
    let ghost initial: MergeState = MergeState { flights: old(existing).deep_view(), priority: 0 };
    let mut remaining = latest_flights;
    let mut priority: i32 = 0;
    let ghost mut k: int = 0;
    proof {
        assert(incoming.take(0) =~= Seq::<FlightV>::empty());
    }
    while remaining.len() > 0
        invariant
            0 <= k <= incoming.len(),
            remaining.deep_view() =~= incoming.skip(k),
            spec_merge_from(initial, incoming.take(k)) == (MergeState {
                flights: existing.deep_view(),
                priority: priority as int,
            }),
        decreases remaining.len(),
    {
        let ghost st: MergeState = MergeState {
            flights: existing.deep_view(),
            priority: priority as int,
        };
        let ghost pre: Seq<FlightV> = existing.deep_view();
        let ghost rem0: Seq<FlightV> = remaining.deep_view();
        let ghost rem0v: Seq<Flight> = remaining@;
        let f = remaining.remove(0);
        proof {
            assert(rem0.len() == incoming.len() - k);
            assert(k < incoming.len());
            assert(f.deep_view() == rem0[0]);
            assert(rem0[0] == incoming.skip(k)[0]);
            assert(incoming.skip(k)[0] == incoming[k]);
            assert forall|i: int|
                0 <= i < remaining.deep_view().len() implies remaining.deep_view()[i]
                == incoming.skip(k + 1)[i] by {
                assert(remaining@[i] == rem0v[i + 1]);
                assert(remaining.deep_view()[i] == rem0[i + 1]);
                assert(rem0[i + 1] == incoming.skip(k)[i + 1]);
            }
            assert(remaining.deep_view() =~= incoming.skip(k + 1));
        }
        // one scan: fill the number matches, remember whether one exists,
        // and remember the first same-glider other-numbered flight
        let mut id_match = false;
        let mut trouve = false;
        let mut candidat: usize = 0;
        let mut j: usize = 0;
        while j < existing.len()
            invariant
                j <= pre.len(),
                existing.deep_view().len() == pre.len(),
                id_match == spec_id_before(pre, f@, j as int),
                trouve == (0 <= spec_glider_candidate(pre, f@) < j as int),
                trouve ==> candidat as int == spec_glider_candidate(pre, f@),
                forall|i: int|
                    0 <= i < pre.len() ==> existing.deep_view()[i] == (if i < j && pre[i].ogn_nb
                        == f@.ogn_nb {
                        rule1_fill(pre[i], f@)
                    } else {
                        pre[i]
                    }),
            decreases pre.len() - j,
        {
            let ghost cur: Seq<FlightV> = existing.deep_view();
            let ghost curv: Seq<Flight> = existing@;
            proof {
                lemma_glider_candidate_props(pre, f@);
                assert(existing.deep_view()[j as int] == existing@[j as int]@);
                assert(existing.deep_view()[j as int] == pre[j as int]);
            }
            if f.ogn_nb == existing[j].ogn_nb {
                proof {
                    assert(pre[j as int].ogn_nb == f@.ogn_nb);
                }
                id_match = true;
                let sentinel = Time::sentinel();
                if existing[j].takeoff == sentinel {
                    existing[j].takeoff = f.takeoff;
                }
                if existing[j].landing == sentinel {
                    existing[j].landing = f.landing;
                }
                proof {
                    assert(existing.deep_view()[j as int] == existing@[j as int]@);
                    assert(existing.deep_view()[j as int] == rule1_fill(pre[j as int], f@));
                    assert(spec_id_before(pre, f@, j as int + 1));
                    assert forall|i: int|
                        0 <= i < pre.len() && i != j as int implies existing.deep_view()[i] == (
                        if i < j as int + 1 && pre[i].ogn_nb == f@.ogn_nb {
                            rule1_fill(pre[i], f@)
                        } else {
                            pre[i]
                        }) by {
                        assert(existing@[i] == curv[i]);
                        assert(existing.deep_view()[i] == existing@[i]@);
                        assert(cur[i] == curv[i]@);
                        assert(cur[i] == (if i < j as int && pre[i].ogn_nb == f@.ogn_nb {
                            rule1_fill(pre[i], f@)
                        } else {
                            pre[i]
                        }));
                    }
                }
            } else if f.glider == existing[j].glider {
                proof {
                    assert(pre[j as int].ogn_nb != f@.ogn_nb);
                    assert(pre[j as int].glider == f@.glider);
                    assert(spec_qualifies(pre[j as int], f@));
                }
                if !trouve {
                    trouve = true;
                    candidat = j;
                    proof {
                        assert(spec_glider_candidate(pre, f@) == j as int);
                    }
                }
            } else {
                proof {
                    assert(pre[j as int].ogn_nb != f@.ogn_nb);
                    assert(!spec_qualifies(pre[j as int], f@));
                }
            }
            proof {
                if spec_id_before(pre, f@, j as int + 1) && !spec_id_before(pre, f@, j as int) {
                    let w = choose|w: int|
                        0 <= w < j as int + 1 && pre[w].ogn_nb == f@.ogn_nb;
                    assert(w == j as int);
                    assert(pre[j as int].ogn_nb == f@.ogn_nb);
                }
            }
            j += 1;
        }
        let ghost filled: Seq<FlightV> = spec_fill_matches(pre, f@);
        proof {
            assert(existing.deep_view() =~= filled);
            lemma_glider_candidate_props(pre, f@);
            assert(spec_has_id(pre, f@) == spec_id_before(pre, f@, pre.len() as int));
        }
        // number matches always win: the glider correction is considered
        // only for an unmatched provisional number that out-ranks the
        // carried priority, and it is committed by this very flight
        let fire = !id_match && f.ogn_nb < 0 && (priority == 0 || priority < f.ogn_nb) && trouve;
        if fire {
            let c = candidat;
            proof {
                assert((c as int) < pre.len());
            }
            existing[c].ogn_nb = f.ogn_nb;
            existing[c].takeoff_code = f.takeoff_code.clone();
            existing[c].takeoff = f.takeoff;
            existing[c].landing = f.landing;
            priority = f.ogn_nb;
            proof {
                assert(existing.deep_view()[c as int] == existing@[c as int]@);
                assert(filled[c as int] == if pre[c as int].ogn_nb == f@.ogn_nb {
                    rule1_fill(pre[c as int], f@)
                } else {
                    pre[c as int]
                });
                assert(existing.deep_view()[c as int] == rule2_overwrite(pre[c as int], f@));
                assert forall|i: int|
                    0 <= i < pre.len() && i != c as int implies existing.deep_view()[i]
                    == filled[i] by {
                    assert(existing.deep_view()[i] == existing@[i]@);
                }
                assert(existing.deep_view() =~= filled.update(
                    c as int,
                    rule2_overwrite(pre[c as int], f@),
                ));
            }
        }
        if !(id_match || fire) {
            existing.push(f);
        }
        proof {
            assert(existing.deep_view() =~= spec_merge_step(st, f@).flights);
            assert(spec_merge_step(st, f@) == (MergeState {
                flights: existing.deep_view(),
                priority: priority as int,
            }));
            lemma_merge_from_snoc(initial, incoming.take(k), f@);
            assert(incoming.take(k).push(incoming[k]) =~= incoming.take(k + 1));
            k = k + 1;
        }
    }
    proof {
        assert(incoming.take(incoming.len() as int) =~= incoming);
    }
}

/// A trait for folding freshly fetched flights into a flight list without
/// touching its locally entered fields.
pub trait Update {
    /// The flights as mathematical values.
    spec fn update_view(&self) -> Seq<FlightV>;

    /// Adds the new values of a feed poll, as [`spec_merge`] says.
    fn update(&mut self, nouveaux_vols: Vec<Flight>)
        ensures
            final(self).update_view() == spec_merge(
                old(self).update_view(),
                nouveaux_vols.deep_view(),
            ),
    ;
}

impl Update for Vec<Flight> {
    open spec fn update_view(&self) -> Seq<FlightV> {
        self.deep_view()
    }

    fn update(&mut self, nouveaux_vols: Vec<Flight>) {
        crate::flight::update(self, nouveaux_vols);
    }
}

/// Whether one of the first `j` existing flights already carries the
/// incoming number.
pub open spec fn spec_id_before(flights: Seq<FlightV>, f: FlightV, j: int) -> bool {
    exists|i: int| 0 <= i < j && flights[i].ogn_nb == f.ogn_nb
}

/// A merge of a single incoming flight that is seen again by its number
/// fills exactly the fields still at their sentinel: the merged flight at
/// the matching slot is `rule1_fill` of the old one, so a sentinel takeoff
/// takes the incoming takeoff and an already entered takeoff stays whatever
/// the feed reports; the list keeps its length.
pub proof fn lemma_sentinel_preserving_merge(existing: Seq<FlightV>, f: FlightV, i: int)
    requires
        0 <= i < existing.len(),
        existing[i].ogn_nb == f.ogn_nb,
    ensures
        spec_merge(existing, seq![f]).len() == existing.len(),
        spec_merge(existing, seq![f])[i] == rule1_fill(existing[i], f),
{
    let init = MergeState { flights: existing, priority: 0 };
    let s = seq![f];
    assert(s[0] == f);
    assert(s.drop_first() =~= Seq::<FlightV>::empty());
    assert(spec_merge_from(init, s) == spec_merge_from(spec_merge_step(init, f), s.drop_first()));
    assert(spec_merge(existing, s) == spec_merge_step(init, f).flights);
    assert(spec_has_id(existing, f));
    let filled = spec_fill_matches(existing, f);
    assert(filled[i] == rule1_fill(existing[i], f));
    // a matched number wins outright: the glider rule is not evaluated
    assert(spec_merge_step(init, f).flights == filled);
}

/// A slot whose number no incoming flight of a settled-number poll carries
/// is untouched by the whole merge.
proof fn lemma_position_untouched(st: MergeState, incoming: Seq<FlightV>, i: int)
    requires
        st.priority == 0,
        0 <= i < st.flights.len(),
        forall|l: int| 0 <= l < incoming.len() ==> (#[trigger] incoming[l]).ogn_nb >= 0,
        forall|l: int|
            0 <= l < incoming.len() ==> (#[trigger] incoming[l]).ogn_nb != st.flights[i].ogn_nb,
    ensures
        spec_merge_from(st, incoming).flights.len() >= st.flights.len(),
        spec_merge_from(st, incoming).flights[i] == st.flights[i],
    decreases incoming.len(),
{
    if incoming.len() > 0 {
        lemma_step_nonneg(st, incoming[0]);
        let st1 = spec_merge_step(st, incoming[0]);
        assert(st1.flights[i] == st.flights[i]);
        assert(forall|l: int|
            0 <= l < incoming.drop_first().len() ==> #[trigger] incoming.drop_first()[l]
                == incoming[l + 1]);
        lemma_position_untouched(st1, incoming.drop_first(), i);
    }
}

proof fn lemma_fill_at_nonneg(st: MergeState, incoming: Seq<FlightV>, i: int, k: int)
    requires
        st.priority == 0,
        0 <= i < st.flights.len(),
        0 <= k < incoming.len(),
        st.flights[i].ogn_nb == incoming[k].ogn_nb,
        forall|l: int| 0 <= l < incoming.len() ==> (#[trigger] incoming[l]).ogn_nb >= 0,
        forall|l: int|
            0 <= l < incoming.len() && l != k ==> (#[trigger] incoming[l]).ogn_nb
                != incoming[k].ogn_nb,
    ensures
        spec_merge_from(st, incoming).flights.len() >= st.flights.len(),
        spec_merge_from(st, incoming).flights[i] == rule1_fill(st.flights[i], incoming[k]),
    decreases incoming.len(),
{
    lemma_step_nonneg(st, incoming[0]);
    let st1 = spec_merge_step(st, incoming[0]);
    assert(forall|l: int|
        0 <= l < incoming.drop_first().len() ==> #[trigger] incoming.drop_first()[l] == incoming[l
            + 1]);
    if k == 0 {
        assert(spec_has_id(st.flights, incoming[0]));
        assert(st1.flights[i] == rule1_fill(st.flights[i], incoming[0]));
        assert(st1.flights[i].ogn_nb == st.flights[i].ogn_nb);
        lemma_position_untouched(st1, incoming.drop_first(), i);
    } else {
        assert(incoming[0].ogn_nb != st.flights[i].ogn_nb);
        assert(st1.flights[i] == st.flights[i]);
        lemma_fill_at_nonneg(st1, incoming.drop_first(), i, k - 1);
    }
}

/// Over a whole settled-number poll, a flight seen again has exactly its
/// still-sentinel times filled from the one incoming flight of its number:
/// a sentinel takeoff takes the incoming takeoff, an already entered one
/// stays whatever the feed reports, and every other field survives.  A
/// provisional number in the poll voids this: its glider correction may
/// overwrite the slot wholesale.
pub proof fn lemma_sentinel_preserving_poll(
    existing: Seq<FlightV>,
    incoming: Seq<FlightV>,
    i: int,
    k: int,
)
    requires
        0 <= i < existing.len(),
        0 <= k < incoming.len(),
        existing[i].ogn_nb == incoming[k].ogn_nb,
        forall|l: int| 0 <= l < incoming.len() ==> (#[trigger] incoming[l]).ogn_nb >= 0,
        forall|l: int|
            0 <= l < incoming.len() && l != k ==> (#[trigger] incoming[l]).ogn_nb
                != incoming[k].ogn_nb,
    ensures
        spec_merge(existing, incoming).len() >= existing.len(),
        spec_merge(existing, incoming)[i] == rule1_fill(existing[i], incoming[k]),
{
    let init = MergeState { flights: existing, priority: 0 };
    lemma_fill_at_nonneg(init, incoming, i, k);
}

/// An incoming flight that matches nothing — no existing flight carries its
/// number and none carries its glider — is appended exactly once, so the
/// list grows by exactly one and everything already there is untouched.
pub proof fn lemma_new_flight_append(existing: Seq<FlightV>, f: FlightV)
    requires
        forall|j: int| 0 <= j < existing.len() ==> existing[j].ogn_nb != f.ogn_nb,
        forall|j: int|
            0 <= j < existing.len() ==> !(existing[j].glider == f.glider && existing[j].ogn_nb
                != f.ogn_nb),
    ensures
        spec_merge(existing, seq![f]) == existing.push(f),
{
    let init = MergeState { flights: existing, priority: 0 };
    let s = seq![f];
    assert(s[0] == f);
    assert(s.drop_first() =~= Seq::<FlightV>::empty());
    assert(spec_merge_from(init, s) == spec_merge_from(spec_merge_step(init, f), s.drop_first()));
    assert(spec_merge(existing, s) == spec_merge_step(init, f).flights);
    lemma_glider_candidate_props(existing, f);
    let g = spec_glider_candidate(existing, f);
    if g != -1 {
        assert(spec_qualifies(existing[g], f));
        assert(false);
    }
    assert(!spec_has_id(existing, f));
    assert(spec_fill_matches(existing, f) =~= existing);
    assert(spec_merge_step(init, f).flights == existing.push(f));
}

/// Whether some existing flight already carries the incoming number and its
/// still-sentinel times can take nothing new from it.
pub open spec fn spec_absorbed(flights: Seq<FlightV>, f: FlightV) -> bool {
    &&& spec_has_id(flights, f)
    &&& forall|i: int|
        0 <= i < flights.len() && (#[trigger] flights[i]).ogn_nb == f.ogn_nb ==> rule1_fill(
            flights[i],
            f,
        ) == flights[i]
}

/// `spec_absorbed` for every flight of an incoming list.
pub open spec fn spec_all_absorbed(flights: Seq<FlightV>, incoming: Seq<FlightV>) -> bool {
    forall|k: int| 0 <= k < incoming.len() ==> spec_absorbed(flights, #[trigger] incoming[k])
}

/// With no provisional incoming number the glider rule never fires, so one
/// step just fills matches or appends.
proof fn lemma_step_nonneg(st: MergeState, f: FlightV)
    requires
        st.priority == 0,
        f.ogn_nb >= 0,
    ensures
        spec_merge_step(st, f) == (MergeState {
            flights: if spec_has_id(st.flights, f) {
                spec_fill_matches(st.flights, f)
            } else {
                spec_fill_matches(st.flights, f).push(f)
            },
            priority: 0,
        }),
{
}

/// After its own step, an incoming flight with a settled number is absorbed.
proof fn lemma_step_absorbs(st: MergeState, f: FlightV)
    requires
        st.priority == 0,
        f.ogn_nb >= 0,
    ensures
        spec_merge_step(st, f).priority == 0,
        spec_absorbed(spec_merge_step(st, f).flights, f),
{
    lemma_step_nonneg(st, f);
    let filled = spec_fill_matches(st.flights, f);
    let out = spec_merge_step(st, f).flights;
    if spec_has_id(st.flights, f) {
        let w = choose|i: int| 0 <= i < st.flights.len() && st.flights[i].ogn_nb == f.ogn_nb;
        assert(filled[w].ogn_nb == f.ogn_nb);
        assert(spec_has_id(filled, f));
        assert forall|i: int|
            0 <= i < out.len() && (#[trigger] out[i]).ogn_nb == f.ogn_nb implies rule1_fill(
            out[i],
            f,
        ) == out[i] by {
            assert(out[i] == if st.flights[i].ogn_nb == f.ogn_nb {
                rule1_fill(st.flights[i], f)
            } else {
                st.flights[i]
            });
        }
    } else {
        assert(out[filled.len() as int] == f);
        assert(out[filled.len() as int].ogn_nb == f.ogn_nb);
        assert(spec_has_id(out, f));
        assert forall|i: int|
            0 <= i < out.len() && (#[trigger] out[i]).ogn_nb == f.ogn_nb implies rule1_fill(
            out[i],
            f,
        ) == out[i] by {
            if i < filled.len() {
                assert(filled[i].ogn_nb == st.flights[i].ogn_nb);
                assert(st.flights[i].ogn_nb != f.ogn_nb);
            } else {
                assert(out[i] == f);
            }
        }
    }
}

/// Later settled-number steps keep an already absorbed flight absorbed.
proof fn lemma_step_preserves_absorbed(st: MergeState, g: FlightV, f: FlightV)
    requires
        st.priority == 0,
        g.ogn_nb >= 0,
        spec_absorbed(st.flights, f),
    ensures
        spec_absorbed(spec_merge_step(st, g).flights, f),
{
    lemma_step_nonneg(st, g);
    let filled = spec_fill_matches(st.flights, g);
    let out = spec_merge_step(st, g).flights;
    let w = choose|i: int| 0 <= i < st.flights.len() && st.flights[i].ogn_nb == f.ogn_nb;
    assert(filled[w].ogn_nb == f.ogn_nb);
    assert(out[w].ogn_nb == f.ogn_nb);
    assert(spec_has_id(out, f));
    assert forall|i: int|
        0 <= i < out.len() && (#[trigger] out[i]).ogn_nb == f.ogn_nb implies rule1_fill(out[i], f)
        == out[i] by {
        if i < st.flights.len() {
            let e = st.flights[i];
            assert(filled[i] == if e.ogn_nb == g.ogn_nb {
                rule1_fill(e, g)
            } else {
                e
            });
            assert(e.ogn_nb == f.ogn_nb);
            assert(rule1_fill(e, f) == e);
        } else {
            assert(out[i] == g);
            assert(g.ogn_nb == f.ogn_nb);
            assert(!spec_has_id(st.flights, g));
            assert(st.flights[w].ogn_nb == g.ogn_nb);
            assert(false);
        }
    }
}

/// A step of an absorbed settled-number flight changes nothing.
proof fn lemma_step_noop(st: MergeState, f: FlightV)
    requires
        st.priority == 0,
        f.ogn_nb >= 0,
        spec_absorbed(st.flights, f),
    ensures
        spec_merge_step(st, f) == (MergeState { flights: st.flights, priority: 0 }),
{
    lemma_step_nonneg(st, f);
    assert(spec_fill_matches(st.flights, f) =~= st.flights);
}

/// After a whole settled-number merge every incoming flight is absorbed.
proof fn lemma_merge_from_preserves_absorbed(st: MergeState, incoming: Seq<FlightV>, f: FlightV)
    requires
        st.priority == 0,
        forall|k: int| 0 <= k < incoming.len() ==> (#[trigger] incoming[k]).ogn_nb >= 0,
        spec_absorbed(st.flights, f),
    ensures
        spec_absorbed(spec_merge_from(st, incoming).flights, f),
    decreases incoming.len(),
{
    if incoming.len() > 0 {
        lemma_step_nonneg(st, incoming[0]);
        lemma_step_preserves_absorbed(st, incoming[0], f);
        assert(forall|k: int|
            0 <= k < incoming.drop_first().len() ==> #[trigger] incoming.drop_first()[k]
                == incoming[k + 1]);
        lemma_merge_from_preserves_absorbed(
            spec_merge_step(st, incoming[0]),
            incoming.drop_first(),
            f,
        );
    }
}

proof fn lemma_merge_from_absorbs_all(st: MergeState, incoming: Seq<FlightV>)
    requires
        st.priority == 0,
        forall|k: int| 0 <= k < incoming.len() ==> (#[trigger] incoming[k]).ogn_nb >= 0,
    ensures
        spec_merge_from(st, incoming).priority == 0,
        spec_all_absorbed(spec_merge_from(st, incoming).flights, incoming),
    decreases incoming.len(),
{
    if incoming.len() > 0 {
        let st1 = spec_merge_step(st, incoming[0]);
        lemma_step_nonneg(st, incoming[0]);
        lemma_step_absorbs(st, incoming[0]);
        assert(forall|k: int|
            0 <= k < incoming.drop_first().len() ==> #[trigger] incoming.drop_first()[k]
                == incoming[k + 1]);
        lemma_merge_from_absorbs_all(st1, incoming.drop_first());
        lemma_merge_from_preserves_absorbed(st1, incoming.drop_first(), incoming[0]);
        let out = spec_merge_from(st, incoming).flights;
        assert forall|k: int| 0 <= k < incoming.len() implies spec_absorbed(
            out,
            #[trigger] incoming[k],
        ) by {
            if k > 0 {
                assert(incoming.drop_first()[k - 1] == incoming[k]);
            }
        }
    }
}

proof fn lemma_merge_from_noop(st: MergeState, incoming: Seq<FlightV>)
    requires
        st.priority == 0,
        forall|k: int| 0 <= k < incoming.len() ==> (#[trigger] incoming[k]).ogn_nb >= 0,
        spec_all_absorbed(st.flights, incoming),
    ensures
        spec_merge_from(st, incoming).flights == st.flights,
    decreases incoming.len(),
{
    if incoming.len() > 0 {
        assert(spec_absorbed(st.flights, incoming[0]));
        lemma_step_noop(st, incoming[0]);
        let st1 = spec_merge_step(st, incoming[0]);
        assert(st1.flights == st.flights);
        assert(forall|k: int|
            0 <= k < incoming.drop_first().len() ==> #[trigger] incoming.drop_first()[k]
                == incoming[k + 1]);
        lemma_merge_from_noop(st1, incoming.drop_first());
    }
}

/// The number of a feed-confirmed flight is unique within one day's list:
/// no two flights both hold the same positive number.
pub open spec fn spec_ids_uniques(flights: Seq<FlightV>) -> bool {
    forall|i: int, j: int|
        0 <= i < j < flights.len() && (#[trigger] flights[i]).ogn_nb > 0 && (
        #[trigger] flights[j]).ogn_nb > 0 ==> flights[i].ogn_nb != flights[j].ogn_nb
}

proof fn lemma_step_preserves_unique(st: MergeState, f: FlightV)
    requires
        spec_ids_uniques(st.flights),
    ensures
        spec_ids_uniques(spec_merge_step(st, f).flights),
{
    let out = spec_merge_step(st, f).flights;
    let id_match = spec_has_id(st.flights, f);
    let g = spec_glider_candidate(st.flights, f);
    let fire = !id_match && f.ogn_nb < 0 && (st.priority == 0 || st.priority < f.ogn_nb) && g
        >= 0;
    lemma_glider_candidate_props(st.flights, f);
    assert forall|i: int, j: int|
        0 <= i < j < out.len() && (#[trigger] out[i]).ogn_nb > 0 && (#[trigger] out[j]).ogn_nb
        > 0 implies out[i].ogn_nb != out[j].ogn_nb by {
        if j < st.flights.len() {
            // the correction writes a provisional (negative) number, so two
            // positive numbers both come from the old list
            assert(!(fire && i == g));
            assert(!(fire && j == g));
            assert(out[i].ogn_nb == st.flights[i].ogn_nb);
            assert(out[j].ogn_nb == st.flights[j].ogn_nb);
        } else {
            // the appended flight's number was carried by no old flight
            assert(!id_match && !fire);
            assert(out[j] == f);
            assert(out[i].ogn_nb == st.flights[i].ogn_nb);
            if st.flights[i].ogn_nb == f.ogn_nb {
                assert(spec_has_id(st.flights, f));
            }
        }
    }
}

/// The merge keeps the day's identity invariant, whatever the poll: if no
/// two flights held the same feed-confirmed (positive) number before it,
/// none do after it.  Number matches never append a duplicate, and a
/// glider correction writes a provisional (negative) number.
pub proof fn lemma_merge_preserves_unique_ids(existing: Seq<FlightV>, incoming: Seq<FlightV>)
    requires
        spec_ids_uniques(existing),
    ensures
        spec_ids_uniques(spec_merge(existing, incoming)),
{
    let init = MergeState { flights: existing, priority: 0 };
    lemma_merge_from_preserves_unique(init, incoming);
}

proof fn lemma_merge_from_preserves_unique(st: MergeState, incoming: Seq<FlightV>)
    requires
        spec_ids_uniques(st.flights),
    ensures
        spec_ids_uniques(spec_merge_from(st, incoming).flights),
    decreases incoming.len(),
{
    if incoming.len() > 0 {
        lemma_step_preserves_unique(st, incoming[0]);
        lemma_merge_from_preserves_unique(
            spec_merge_step(st, incoming[0]),
            incoming.drop_first(),
        );
    }
}

/// Re-merging the same incoming list a second time changes nothing, as long
/// as every incoming flight carries a settled (non-negative) number.  With
/// provisional numbers this fails: against one flight numbered `-5`, a poll
/// of `[-5` for another glider, `-4` for the same glider`]` first matches by
/// number and then corrects the flight to `-4`; on the second pass the
/// number `-5` is gone, so the first incoming flight matches nothing and is
/// appended.
pub proof fn lemma_idempotent_remerge(existing: Seq<FlightV>, incoming: Seq<FlightV>)
    requires
        forall|k: int| 0 <= k < incoming.len() ==> (#[trigger] incoming[k]).ogn_nb >= 0,
    ensures
        spec_merge(spec_merge(existing, incoming), incoming) == spec_merge(existing, incoming),
{
    let init1 = MergeState { flights: existing, priority: 0 };
    lemma_merge_from_absorbs_all(init1, incoming);
    let merged = spec_merge(existing, incoming);
    let init2 = MergeState { flights: merged, priority: 0 };
    lemma_merge_from_noop(init2, incoming);
}

proof fn lemma_merge_from_snoc(st: MergeState, incoming: Seq<FlightV>, f: FlightV)
    ensures
        spec_merge_from(st, incoming.push(f)) == spec_merge_step(spec_merge_from(st, incoming), f),
    decreases incoming.len(),
{
    if incoming.len() == 0 {
        let pushed = incoming.push(f);
        assert(pushed[0] == f);
        assert(pushed.drop_first() =~= Seq::<FlightV>::empty());
        assert(spec_merge_from(st, pushed) == spec_merge_from(
            spec_merge_step(st, f),
            pushed.drop_first(),
        ));
        assert(spec_merge_from(spec_merge_step(st, f), Seq::<FlightV>::empty())
            == spec_merge_step(st, f));
    } else {
        assert(incoming.push(f)[0] == incoming[0]);
        assert(incoming.push(f).drop_first() =~= incoming.drop_first().push(f));
        lemma_merge_from_snoc(spec_merge_step(st, incoming[0]), incoming.drop_first(), f);
        assert(spec_merge_from(st, incoming.push(f)) == spec_merge_from(
            spec_merge_step(st, incoming[0]),
            incoming.drop_first().push(f),
        ));
    }
}

} // verus!
