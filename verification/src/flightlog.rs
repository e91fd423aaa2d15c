//! FlightLog: an object to represent a group of flights and the
//! organization on the ground for one day.
//!
//! A flight log owns one date, the day's flights, and the day's crew
//! assignments: winch pilot, winch, tow pilot, tow plane and field chief.
//! A field edit addresses a flight by its feed number; the reserved number
//! zero addresses the crew slots.  An edit for another day, or under an
//! unknown field name, changes nothing — it is logged upstream and
//! ignored, never an error to the caller.

use crate::flight::{spec_merge, Flight, FlightV};
use crate::mise_a_jour::{MiseAJour, MiseAJourV};
use crate::temps::{parse_heure, spec_parse_heure, Date, Time};
use vstd::prelude::*;

verus! {

/// One day of club activity: flights and crew assignments.
#[derive(Clone, Debug, PartialEq)]
pub struct FlightLog {
    /// The day this log covers.
    pub date: Date,
    /// The flights of the day, in the order the store and the feed gave
    /// them.
    pub flights: Vec<Flight>,
    /// The day's winch pilot.
    pub pilote_tr: String,
    /// The day's winch.
    pub treuil: String,
    /// The day's tow pilot.
    pub pilote_rq: String,
    /// The day's tow plane.
    pub remorqueur: String,
    /// The day's field chief.
    pub chef_piste: String,
}

/// The mathematical value of one flight log.
pub struct FlightLogV {
    pub date: Date,
    pub flights: Seq<FlightV>,
    pub pilote_tr: Seq<char>,
    pub treuil: Seq<char>,
    pub pilote_rq: Seq<char>,
    pub remorqueur: Seq<char>,
    pub chef_piste: Seq<char>,
}

impl View for FlightLog {
    type V = FlightLogV;

    open spec fn view(&self) -> FlightLogV {
        FlightLogV {
            date: self.date,
            flights: self.flights.deep_view(),
            pilote_tr: self.pilote_tr@,
            treuil: self.treuil@,
            pilote_rq: self.pilote_rq@,
            remorqueur: self.remorqueur@,
            chef_piste: self.chef_piste@,
        }
    }
}

/// The fields an edit request can address, the unknown ones as their own
/// case so that ignoring them is a visible branch.
#[derive(Clone, Copy, Debug, PartialEq, Eq, Structural)]
pub enum Champ {
    /// How the flight got airborne.
    CodeDecollage,
    /// The winch or tow plane.
    MachineDecollage,
    /// The pilot of the winch or tow plane.
    Decolleur,
    /// The glider.
    Aeronef,
    /// The club classification of the flight.
    CodeVol,
    /// The first pilot.
    Pilote1,
    /// The second pilot.
    Pilote2,
    /// The takeoff time.
    Decollage,
    /// The landing time.
    Atterissage,
    /// The day's winch pilot slot.
    PiloteTr,
    /// The day's winch slot.
    Treuil,
    /// The day's tow pilot slot.
    PiloteRq,
    /// The day's tow plane slot.
    Remorqueur,
    /// The day's field chief slot.
    ChefPiste,
    /// Any other name: the edit is ignored.
    Inconnu,
}

/// Which field a name of the wire format addresses.
pub open spec fn spec_champ_de(nom: Seq<char>) -> Champ {
    if nom == "code_decollage"@ {
        Champ::CodeDecollage
    } else if nom == "machine_decollage"@ {
        Champ::MachineDecollage
    } else if nom == "decolleur"@ {
        Champ::Decolleur
    } else if nom == "aeronef"@ {
        Champ::Aeronef
    } else if nom == "code_vol"@ {
        Champ::CodeVol
    } else if nom == "pilote1"@ {
        Champ::Pilote1
    } else if nom == "pilote2"@ {
        Champ::Pilote2
    } else if nom == "decollage"@ {
        Champ::Decollage
    } else if nom == "atterissage"@ {
        Champ::Atterissage
    } else if nom == "pilote_tr"@ {
        Champ::PiloteTr
    } else if nom == "treuil"@ {
        Champ::Treuil
    } else if nom == "pilote_rq"@ {
        Champ::PiloteRq
    } else if nom == "remorqueur"@ {
        Champ::Remorqueur
    } else if nom == "chef_piste"@ {
        Champ::ChefPiste
    } else {
        Champ::Inconnu
    }
}

/// Reads which field a name addresses.
pub fn champ_de(nom: &String) -> (c: Champ)
    ensures
        c == spec_champ_de(nom@),
{
    if *nom == String::from_str("code_decollage") {
        Champ::CodeDecollage
    } else if *nom == String::from_str("machine_decollage") {
        Champ::MachineDecollage
    } else if *nom == String::from_str("decolleur") {
        Champ::Decolleur
    } else if *nom == String::from_str("aeronef") {
        Champ::Aeronef
    } else if *nom == String::from_str("code_vol") {
        Champ::CodeVol
    } else if *nom == String::from_str("pilote1") {
        Champ::Pilote1
    } else if *nom == String::from_str("pilote2") {
        Champ::Pilote2
    } else if *nom == String::from_str("decollage") {
        Champ::Decollage
    } else if *nom == String::from_str("atterissage") {
        Champ::Atterissage
    } else if *nom == String::from_str("pilote_tr") {
        Champ::PiloteTr
    } else if *nom == String::from_str("treuil") {
        Champ::Treuil
    } else if *nom == String::from_str("pilote_rq") {
        Champ::PiloteRq
    } else if *nom == String::from_str("remorqueur") {
        Champ::Remorqueur
    } else if *nom == String::from_str("chef_piste") {
        Champ::ChefPiste
    } else {
        Champ::Inconnu
    }
}

/// One flight after one field edit; a time that does not read as `HH:MM`,
/// a crew slot name or an unknown name changes nothing.
pub open spec fn spec_appliquer_champ(f: FlightV, c: Champ, valeur: Seq<char>) -> FlightV {
    match c {
        Champ::CodeDecollage => FlightV { takeoff_code: valeur, ..f },
        Champ::MachineDecollage => FlightV { takeoff_machine: valeur, ..f },
        Champ::Decolleur => FlightV { takeoff_machine_pilot: valeur, ..f },
        Champ::Aeronef => FlightV { glider: valeur, ..f },
        Champ::CodeVol => FlightV { flight_code: valeur, ..f },
        Champ::Pilote1 => FlightV { pilot1: valeur, ..f },
        Champ::Pilote2 => FlightV { pilot2: valeur, ..f },
        Champ::Decollage => match spec_parse_heure(valeur) {
            Some(t) => FlightV { takeoff: t, ..f },
            None => f,
        },
        Champ::Atterissage => match spec_parse_heure(valeur) {
            Some(t) => FlightV { landing: t, ..f },
            None => f,
        },
        _ => f,
    }
}

/// The whole log after one edit: nothing for another day, the crew slot
/// for the reserved number zero, otherwise every flight of that number.
pub open spec fn spec_appliquer_maj(log: FlightLogV, m: MiseAJourV) -> FlightLogV {
    if m.date != log.date {
        log
    } else if m.numero_ogn == 0 {
        match spec_champ_de(m.champ_mis_a_jour) {
            Champ::PiloteTr => FlightLogV { pilote_tr: m.nouvelle_valeur, ..log },
            Champ::Treuil => FlightLogV { treuil: m.nouvelle_valeur, ..log },
            Champ::PiloteRq => FlightLogV { pilote_rq: m.nouvelle_valeur, ..log },
            Champ::Remorqueur => FlightLogV { remorqueur: m.nouvelle_valeur, ..log },
            Champ::ChefPiste => FlightLogV { chef_piste: m.nouvelle_valeur, ..log },
            _ => log,
        }
    } else {
        FlightLogV {
            flights: log.flights.map_values(
                |f: FlightV|
                    if f.ogn_nb == m.numero_ogn {
                        spec_appliquer_champ(f, spec_champ_de(m.champ_mis_a_jour), m.nouvelle_valeur)
                    } else {
                        f
                    },
            ),
            ..log
        }
    }
}

impl FlightLog {
    /// A new, empty flight log for the placeholder date.
    pub fn new() -> (log: FlightLog)
        ensures
            log@.flights == Seq::<FlightV>::empty(),
            log@.date == (Date { year: 1970, month: 1, day: 1 }),
            log@.pilote_tr == Seq::<char>::empty(),
            log@.treuil == Seq::<char>::empty(),
            log@.pilote_rq == Seq::<char>::empty(),
            log@.remorqueur == Seq::<char>::empty(),
            log@.chef_piste == Seq::<char>::empty(),
    {
        let log = FlightLog {
            date: Date { year: 1970, month: 1, day: 1 },
            flights: Vec::new(),
            pilote_tr: String::new(),
            treuil: String::new(),
            pilote_rq: String::new(),
            remorqueur: String::new(),
            chef_piste: String::new(),
        };
        proof {
            assert(log@.flights =~= Seq::<FlightV>::empty());
        }
        log
    }

    /// Applies one field edit to the day, as [`spec_appliquer_maj`] says:
    /// an edit for another day or under an unknown name is a no-op.
    pub fn update(&mut self, mise_a_jour: &MiseAJour)
        ensures
            final(self)@ == spec_appliquer_maj(old(self)@, mise_a_jour@),
    {
        let ghost av: FlightLogV = self@;
        if !(self.date == mise_a_jour.date) {
            return ;
        }
        let champ = champ_de(&mise_a_jour.champ_mis_a_jour);
        if mise_a_jour.numero_ogn == 0 {
            match champ {
                Champ::PiloteTr => {
                    self.pilote_tr = mise_a_jour.nouvelle_valeur.clone();
                },
                Champ::Treuil => {
                    self.treuil = mise_a_jour.nouvelle_valeur.clone();
                },
                Champ::PiloteRq => {
                    self.pilote_rq = mise_a_jour.nouvelle_valeur.clone();
                },
                Champ::Remorqueur => {
                    self.remorqueur = mise_a_jour.nouvelle_valeur.clone();
                },
                Champ::ChefPiste => {
                    self.chef_piste = mise_a_jour.nouvelle_valeur.clone();
                },
                _ => {},
            }
            return ;
        }
        let ghost pre: Seq<FlightV> = self.flights.deep_view();
        let mut i: usize = 0;
        while i < self.flights.len()
            invariant
                i <= pre.len(),
                self.flights.deep_view().len() == pre.len(),
                champ == spec_champ_de(mise_a_jour@.champ_mis_a_jour),
                self.date == av.date,
                self.pilote_tr@ == av.pilote_tr,
                self.treuil@ == av.treuil,
                self.pilote_rq@ == av.pilote_rq,
                self.remorqueur@ == av.remorqueur,
                self.chef_piste@ == av.chef_piste,
                forall|m: int|
                    0 <= m < pre.len() ==> self.flights.deep_view()[m] == (if m < i && pre[m].ogn_nb
                        == mise_a_jour@.numero_ogn {
                        spec_appliquer_champ(
                            pre[m],
                            spec_champ_de(mise_a_jour@.champ_mis_a_jour),
                            mise_a_jour@.nouvelle_valeur,
                        )
                    } else {
                        pre[m]
                    }),
            decreases pre.len() - i,
        {
            let ghost cur: Seq<FlightV> = self.flights.deep_view();
            let ghost curv: Seq<Flight> = self.flights@;
            proof {
                assert(self.flights.deep_view()[i as int] == self.flights@[i as int]@);
                assert(self.flights.deep_view()[i as int] == pre[i as int]);
            }
            if self.flights[i].ogn_nb == mise_a_jour.numero_ogn {
                match champ {
                    Champ::CodeDecollage => {
                        self.flights[i].takeoff_code = mise_a_jour.nouvelle_valeur.clone();
                    },
                    Champ::MachineDecollage => {
                        self.flights[i].takeoff_machine = mise_a_jour.nouvelle_valeur.clone();
                    },
                    Champ::Decolleur => {
                        self.flights[i].takeoff_machine_pilot = mise_a_jour.nouvelle_valeur.clone();
                    },
                    Champ::Aeronef => {
                        self.flights[i].glider = mise_a_jour.nouvelle_valeur.clone();
                    },
                    Champ::CodeVol => {
                        self.flights[i].flight_code = mise_a_jour.nouvelle_valeur.clone();
                    },
                    Champ::Pilote1 => {
                        self.flights[i].pilot1 = mise_a_jour.nouvelle_valeur.clone();
                    },
                    Champ::Pilote2 => {
                        self.flights[i].pilot2 = mise_a_jour.nouvelle_valeur.clone();
                    },
                    Champ::Decollage => {
                        match parse_heure(mise_a_jour.nouvelle_valeur.as_str()) {
                            Some(t) => {
                                self.flights[i].takeoff = t;
                            },
                            None => {},
                        }
                    },
                    Champ::Atterissage => {
                        match parse_heure(mise_a_jour.nouvelle_valeur.as_str()) {
                            Some(t) => {
                                self.flights[i].landing = t;
                            },
                            None => {},
                        }
                    },
                    _ => {},
                }
                proof {
                    assert(self.flights.deep_view()[i as int] == self.flights@[i as int]@);
                    assert(self.flights.deep_view()[i as int] == spec_appliquer_champ(
                        pre[i as int],
                        spec_champ_de(mise_a_jour@.champ_mis_a_jour),
                        mise_a_jour@.nouvelle_valeur,
                    ));
                }
            }
            proof {
                assert forall|m: int|
                    0 <= m < pre.len() implies self.flights.deep_view()[m] == (if m < i as int + 1
                    && pre[m].ogn_nb == mise_a_jour@.numero_ogn {
                    spec_appliquer_champ(
                        pre[m],
                        spec_champ_de(mise_a_jour@.champ_mis_a_jour),
                        mise_a_jour@.nouvelle_valeur,
                    )
                } else {
                    pre[m]
                }) by {
                    assert(self.flights.deep_view()[m] == self.flights@[m]@);
                    if m != i as int {
                        assert(self.flights@[m] == curv[m]);
                        assert(cur[m] == curv[m]@);
                        assert(cur[m] == (if m < i as int && pre[m].ogn_nb
                            == mise_a_jour@.numero_ogn {
                            spec_appliquer_champ(
                                pre[m],
                                spec_champ_de(mise_a_jour@.champ_mis_a_jour),
                                mise_a_jour@.nouvelle_valeur,
                            )
                        } else {
                            pre[m]
                        }));
                    }
                }
            }
            i += 1;
        }
        proof {
            assert forall|m: int|
                0 <= m < pre.len() implies self.flights.deep_view()[m] == spec_appliquer_maj(
                av,
                mise_a_jour@,
            ).flights[m] by {
                assert(spec_appliquer_maj(av, mise_a_jour@).flights == av.flights.map_values(
                    |f: FlightV|
                        if f.ogn_nb == mise_a_jour@.numero_ogn {
                            spec_appliquer_champ(
                                f,
                                spec_champ_de(mise_a_jour@.champ_mis_a_jour),
                                mise_a_jour@.nouvelle_valeur,
                            )
                        } else {
                            f
                        },
                ));
            }
            assert(self.flights.deep_view() =~= spec_appliquer_maj(av, mise_a_jour@).flights);
        }
    }

    /// Reconciles a freshly fetched feed list into the day's flights, by
    /// the merge of [`spec_merge`]; date and crew slots are untouched.
    pub fn update_ogn(&mut self, derniers_vols: Vec<Flight>)
        ensures
            final(self)@.flights == spec_merge(old(self)@.flights, derniers_vols.deep_view()),
            final(self)@.date == old(self)@.date,
            final(self)@.pilote_tr == old(self)@.pilote_tr,
            final(self)@.treuil == old(self)@.treuil,
            final(self)@.pilote_rq == old(self)@.pilote_rq,
            final(self)@.remorqueur == old(self)@.remorqueur,
            final(self)@.chef_piste == old(self)@.chef_piste,
    {
        crate::flight::update(&mut self.flights, derniers_vols);
    }

    /// One poll of the feed folded into the day: a fetched list is merged
    /// into the flights, a failed fetch (`None`) leaves them as they were;
    /// either way the caller persists the log afterwards, so a transient
    /// outage never blocks serving the last known good log.
    pub fn refresh_from_network(&mut self, fetched: Option<Vec<Flight>>) -> (merged: bool)
        ensures
            merged == fetched is Some,
            match fetched {
                Some(vols) => final(self)@.flights == spec_merge(
                    old(self)@.flights,
                    vols.deep_view(),
                ),
                None => final(self)@.flights == old(self)@.flights,
            },
            final(self)@.date == old(self)@.date,
            final(self)@.pilote_tr == old(self)@.pilote_tr,
            final(self)@.treuil == old(self)@.treuil,
            final(self)@.pilote_rq == old(self)@.pilote_rq,
            final(self)@.remorqueur == old(self)@.remorqueur,
            final(self)@.chef_piste == old(self)@.chef_piste,
    {
        match fetched {
            Some(vols) => {
                self.update_ogn(vols);
                true
            },
            None => false,
        }
    }

    /// Encodes the log as the JSON answer served to clients: the date and
    /// the flight list.
    pub fn vers_json(&self) -> (r: String)
        ensures
            r@ == spec_json_flightlog(self@),
    {
        let mut r = String::new();
        r.append("{ \"date\": \"");
        let date = crate::temps::date_ymd_string(&self.date);
        r.append(date.as_str());
        r.append("\",\n\"vols\" : ");
        let vols = crate::vol_json::VolJson::vers_json(&self.flights);
        r.append(vols.as_str());
        r.append("}");
        proof {
            assert(r@ =~= spec_json_flightlog(self@));
        }
        r
    }
}

/// The JSON text served for a whole log: its date and its flights.
pub open spec fn spec_json_flightlog(log: FlightLogV) -> Seq<char> {
    "{ \"date\": \""@ + crate::temps::spec_date_ymd(log.date) + "\",\n\"vols\" : "@
        + crate::vol_json::spec_json_vols(log.flights) + "}"@
}

} // verus!
