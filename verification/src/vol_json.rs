//! The JSON shape of flights on disk and on the wire.
//!
//! One flight is a flat object under the historical French keys
//! (`numero_ogn`, `code_decollage`, ...), with times as `HH:MM` text; a
//! flight list is the objects joined by commas between `[\n` and `\n]`.
//! Decoding supplies an explicit default for every missing or ill-typed
//! field — feed payloads are frequently incomplete — and fails only when
//! the text is no object of the wire format at all.

use crate::codec::{
    parse_objet, parse_tableau, spec_entier_de, spec_parse_objet, spec_parse_tableau,
    spec_texte_de, texte_de, entier_de, JsonPair, JsonPairV, JsonValV,
};
use crate::flight::{Flight, FlightV};
use crate::temps::{parse_heure, spec_heure_hm, spec_parse_heure, Time};
use vstd::prelude::*;

verus! {

/// The JSON text of one flight.
pub open spec fn spec_json_vol(f: FlightV) -> Seq<char> {
    "{\"numero_ogn\":"@ + crate::temps::spec_dec_i32(f.ogn_nb as int) + ",\"code_decollage\":\""@
        + f.takeoff_code + "\",\"machine_decollage\":\""@ + f.takeoff_machine
        + "\",\"decolleur\":\""@ + f.takeoff_machine_pilot + "\",\"aeronef\":\""@ + f.glider
        + "\",\"code_vol\":\""@ + f.flight_code + "\",\"pilote1\":\""@ + f.pilot1
        + "\",\"pilote2\":\""@ + f.pilot2 + "\",\"decollage\":\""@ + spec_heure_hm(f.takeoff)
        + "\",\"atterissage\":\""@ + spec_heure_hm(f.landing) + "\"}"@
}

/// The flight a list of object members describes, every missing or
/// ill-typed field at its default: zero, the empty string, the sentinel
/// time.
pub open spec fn spec_vol_de_paires(paires: Seq<JsonPairV>) -> FlightV {
    FlightV {
        ogn_nb: match spec_entier_de(paires, "numero_ogn"@) {
            Some(n) => if -2147483648 <= n <= 2147483647 {
                n as i32
            } else {
                0
            },
            None => 0,
        },
        takeoff_code: spec_texte_ou_vide(paires, "code_decollage"@),
        takeoff_machine: spec_texte_ou_vide(paires, "machine_decollage"@),
        takeoff_machine_pilot: spec_texte_ou_vide(paires, "decolleur"@),
        glider: spec_texte_ou_vide(paires, "aeronef"@),
        flight_code: spec_texte_ou_vide(paires, "code_vol"@),
        pilot1: spec_texte_ou_vide(paires, "pilote1"@),
        pilot2: spec_texte_ou_vide(paires, "pilote2"@),
        takeoff: spec_heure_ou_sentinelle(paires, "decollage"@),
        landing: spec_heure_ou_sentinelle(paires, "atterissage"@),
    }
}

/// A string member, or the empty string.
pub open spec fn spec_texte_ou_vide(paires: Seq<JsonPairV>, cle: Seq<char>) -> Seq<char> {
    match spec_texte_de(paires, cle) {
        Some(t) => t,
        None => Seq::empty(),
    }
}

/// A time member, or the sentinel.
pub open spec fn spec_heure_ou_sentinelle(paires: Seq<JsonPairV>, cle: Seq<char>) -> Time {
    match spec_texte_de(paires, cle) {
        Some(t) => match spec_parse_heure(t) {
            Some(h) => h,
            None => Time::spec_sentinel(),
        },
        None => Time::spec_sentinel(),
    }
}

/// What decoding one flight text yields.
pub open spec fn spec_depuis_json_vol(s: Seq<char>) -> Option<FlightV> {
    match spec_parse_objet(s) {
        None => None,
        Some(paires) => Some(spec_vol_de_paires(paires)),
    }
}

pub fn texte_ou_vide(paires: &Vec<JsonPair>, cle: &str) -> (r: String)
    ensures
        r@ == spec_texte_ou_vide(paires.deep_view(), cle@),
{
    match texte_de(paires, cle) {
        Some(t) => t,
        None => String::new(),
    }
}

fn heure_ou_sentinelle(paires: &Vec<JsonPair>, cle: &str) -> (r: Time)
    ensures
        r == spec_heure_ou_sentinelle(paires.deep_view(), cle@),
{
    match texte_de(paires, cle) {
        Some(t) => match parse_heure(t.as_str()) {
            Some(h) => h,
            None => Time::sentinel(),
        },
        None => Time::sentinel(),
    }
}

fn vol_de_paires(paires: &Vec<JsonPair>) -> (f: Flight)
    ensures
        f@ == spec_vol_de_paires(paires.deep_view()),
{
    let ogn_nb: i32 = match entier_de(paires, "numero_ogn") {
        Some(n) => if -2147483648i64 <= n && n <= 2147483647i64 {
            n as i32
        } else {
            0
        },
        None => 0,
    };
    Flight {
        ogn_nb,
        takeoff_code: texte_ou_vide(paires, "code_decollage"),
        takeoff_machine: texte_ou_vide(paires, "machine_decollage"),
        takeoff_machine_pilot: texte_ou_vide(paires, "decolleur"),
        glider: texte_ou_vide(paires, "aeronef"),
        flight_code: texte_ou_vide(paires, "code_vol"),
        pilot1: texte_ou_vide(paires, "pilote1"),
        pilot2: texte_ou_vide(paires, "pilote2"),
        takeoff: heure_ou_sentinelle(paires, "decollage"),
        landing: heure_ou_sentinelle(paires, "atterissage"),
    }
}

impl Flight {
    /// Encodes the flight as its JSON object.
    pub fn vers_json(&self) -> (r: String)
        ensures
            r@ == spec_json_vol(self@),
    {
        let mut r = String::new();
        r.append("{\"numero_ogn\":");
        let nb = crate::temps::dec_i32_string(self.ogn_nb);
        r.append(nb.as_str());
        r.append(",\"code_decollage\":\"");
        r.append(self.takeoff_code.as_str());
        r.append("\",\"machine_decollage\":\"");
        r.append(self.takeoff_machine.as_str());
        r.append("\",\"decolleur\":\"");
        r.append(self.takeoff_machine_pilot.as_str());
        r.append("\",\"aeronef\":\"");
        r.append(self.glider.as_str());
        r.append("\",\"code_vol\":\"");
        r.append(self.flight_code.as_str());
        r.append("\",\"pilote1\":\"");
        r.append(self.pilot1.as_str());
        r.append("\",\"pilote2\":\"");
        r.append(self.pilot2.as_str());
        r.append("\",\"decollage\":\"");
        let decollage = crate::temps::heure_hm_string(&self.takeoff);
        r.append(decollage.as_str());
        r.append("\",\"atterissage\":\"");
        let atterissage = crate::temps::heure_hm_string(&self.landing);
        r.append(atterissage.as_str());
        r.append("\"}");
        proof {
            assert(r@ =~= spec_json_vol(self@));
        }
        r
    }

    /// Decodes one flight from its JSON text, defaults supplied for every
    /// missing field; `None` when the text is no object of the format.
    pub fn depuis_json(texte: &str) -> (r: Option<Flight>)
        ensures
            match r {
                Some(f) => spec_depuis_json_vol(texte@) == Some(f@),
                None => spec_depuis_json_vol(texte@) is None,
            },
    {
        match parse_objet(texte) {
            None => None,
            Some(paires) => Some(vol_de_paires(&paires)),
        }
    }
}

/// The members of one flight's JSON object, in encoder order.
pub open spec fn spec_paires_vol(f: FlightV) -> Seq<JsonPairV> {
    seq![
        JsonPairV { cle: "numero_ogn"@, valeur: JsonValV::Entier(f.ogn_nb as i64) },
        JsonPairV { cle: "code_decollage"@, valeur: JsonValV::Texte(f.takeoff_code) },
        JsonPairV { cle: "machine_decollage"@, valeur: JsonValV::Texte(f.takeoff_machine) },
        JsonPairV { cle: "decolleur"@, valeur: JsonValV::Texte(f.takeoff_machine_pilot) },
        JsonPairV { cle: "aeronef"@, valeur: JsonValV::Texte(f.glider) },
        JsonPairV { cle: "code_vol"@, valeur: JsonValV::Texte(f.flight_code) },
        JsonPairV { cle: "pilote1"@, valeur: JsonValV::Texte(f.pilot1) },
        JsonPairV { cle: "pilote2"@, valeur: JsonValV::Texte(f.pilot2) },
        JsonPairV { cle: "decollage"@, valeur: JsonValV::Texte(spec_heure_hm(f.takeoff)) },
        JsonPairV { cle: "atterissage"@, valeur: JsonValV::Texte(spec_heure_hm(f.landing)) },
    ]
}

/// Whether every flight field can cross the wire and come back: no quote
/// in any text the feed or the club entered.
pub open spec fn spec_vol_rendable(f: FlightV) -> bool {
    &&& crate::codec::spec_sans_guillemet(f.takeoff_code)
    &&& crate::codec::spec_sans_guillemet(f.takeoff_machine)
    &&& crate::codec::spec_sans_guillemet(f.takeoff_machine_pilot)
    &&& crate::codec::spec_sans_guillemet(f.glider)
    &&& crate::codec::spec_sans_guillemet(f.flight_code)
    &&& crate::codec::spec_sans_guillemet(f.pilot1)
    &&& crate::codec::spec_sans_guillemet(f.pilot2)
}

#[verifier::rlimit(100)]
proof fn lemma_json_vol_forme(f: FlightV)
    ensures
        spec_json_vol(f) == crate::codec::spec_rendre_objet(spec_paires_vol(f)),
{
    let ps = spec_paires_vol(f);
    reveal_strlit("{\"numero_ogn\":");
    reveal_strlit(",\"code_decollage\":\"");
    reveal_strlit("\",\"machine_decollage\":\"");
    reveal_strlit("\",\"decolleur\":\"");
    reveal_strlit("\",\"aeronef\":\"");
    reveal_strlit("\",\"code_vol\":\"");
    reveal_strlit("\",\"pilote1\":\"");
    reveal_strlit("\",\"pilote2\":\"");
    reveal_strlit("\",\"decollage\":\"");
    reveal_strlit("\",\"atterissage\":\"");
    reveal_strlit("\"}");
    reveal_strlit("numero_ogn");
    reveal_strlit("code_decollage");
    reveal_strlit("machine_decollage");
    reveal_strlit("decolleur");
    reveal_strlit("aeronef");
    reveal_strlit("code_vol");
    reveal_strlit("pilote1");
    reveal_strlit("pilote2");
    reveal_strlit("decollage");
    reveal_strlit("atterissage");
    let m0 = crate::codec::spec_rendre_membre(ps[0]);
    let m1 = crate::codec::spec_rendre_membre(ps[1]);
    let m2 = crate::codec::spec_rendre_membre(ps[2]);
    let m3 = crate::codec::spec_rendre_membre(ps[3]);
    let m4 = crate::codec::spec_rendre_membre(ps[4]);
    let m5 = crate::codec::spec_rendre_membre(ps[5]);
    let m6 = crate::codec::spec_rendre_membre(ps[6]);
    let m7 = crate::codec::spec_rendre_membre(ps[7]);
    let m8 = crate::codec::spec_rendre_membre(ps[8]);
    let m9 = crate::codec::spec_rendre_membre(ps[9]);
    let virgule = seq![','];
    assert(ps.drop_first() =~= ps.subrange(1, 10));
    assert(crate::codec::spec_rendre_membres(ps) =~= m0 + virgule + m1 + virgule + m2 + virgule
        + m3 + virgule + m4 + virgule + m5 + virgule + m6 + virgule + m7 + virgule + m8 + virgule
        + m9) by {
        lemma_membres_10(ps);
    }
    assert(spec_json_vol(f) =~= crate::codec::spec_rendre_objet(ps));
}

#[verifier::rlimit(100)]
proof fn lemma_membres_10(ps: Seq<JsonPairV>)
    requires
        ps.len() == 10,
    ensures
        crate::codec::spec_rendre_membres(ps) == crate::codec::spec_rendre_membre(ps[0]) + seq![
            ',',
        ] + crate::codec::spec_rendre_membre(ps[1]) + seq![','] + crate::codec::spec_rendre_membre(
            ps[2],
        ) + seq![','] + crate::codec::spec_rendre_membre(ps[3]) + seq![',']
            + crate::codec::spec_rendre_membre(ps[4]) + seq![','] + crate::codec::spec_rendre_membre(
            ps[5],
        ) + seq![','] + crate::codec::spec_rendre_membre(ps[6]) + seq![',']
            + crate::codec::spec_rendre_membre(ps[7]) + seq![','] + crate::codec::spec_rendre_membre(
            ps[8],
        ) + seq![','] + crate::codec::spec_rendre_membre(ps[9]),
{
    let r1 = ps.drop_first();
    let r2 = r1.drop_first();
    let r3 = r2.drop_first();
    let r4 = r3.drop_first();
    let r5 = r4.drop_first();
    let r6 = r5.drop_first();
    let r7 = r6.drop_first();
    let r8 = r7.drop_first();
    let r9 = r8.drop_first();
    assert(r9.len() == 1);
    assert(r1[0] == ps[1] && r2[0] == ps[2] && r3[0] == ps[3] && r4[0] == ps[4] && r5[0] == ps[5]
        && r6[0] == ps[6] && r7[0] == ps[7] && r8[0] == ps[8] && r9[0] == ps[9]);
    assert(crate::codec::spec_rendre_membres(r9) == crate::codec::spec_rendre_membre(ps[9]));
    assert(crate::codec::spec_rendre_membres(r8) == crate::codec::spec_rendre_membre(ps[8])
        + seq![','] + crate::codec::spec_rendre_membres(r9));
    assert(crate::codec::spec_rendre_membres(r7) == crate::codec::spec_rendre_membre(ps[7])
        + seq![','] + crate::codec::spec_rendre_membres(r8));
    assert(crate::codec::spec_rendre_membres(r6) == crate::codec::spec_rendre_membre(ps[6])
        + seq![','] + crate::codec::spec_rendre_membres(r7));
    assert(crate::codec::spec_rendre_membres(r5) == crate::codec::spec_rendre_membre(ps[5])
        + seq![','] + crate::codec::spec_rendre_membres(r6));
    assert(crate::codec::spec_rendre_membres(r4) == crate::codec::spec_rendre_membre(ps[4])
        + seq![','] + crate::codec::spec_rendre_membres(r5));
    assert(crate::codec::spec_rendre_membres(r3) == crate::codec::spec_rendre_membre(ps[3])
        + seq![','] + crate::codec::spec_rendre_membres(r4));
    assert(crate::codec::spec_rendre_membres(r2) == crate::codec::spec_rendre_membre(ps[2])
        + seq![','] + crate::codec::spec_rendre_membres(r3));
    assert(crate::codec::spec_rendre_membres(r1) == crate::codec::spec_rendre_membre(ps[1])
        + seq![','] + crate::codec::spec_rendre_membres(r2));
    assert(crate::codec::spec_rendre_membres(ps) == crate::codec::spec_rendre_membre(ps[0])
        + seq![','] + crate::codec::spec_rendre_membres(r1));
    assert(crate::codec::spec_rendre_membres(ps) =~= crate::codec::spec_rendre_membre(ps[0])
        + seq![','] + crate::codec::spec_rendre_membre(ps[1]) + seq![',']
        + crate::codec::spec_rendre_membre(ps[2]) + seq![','] + crate::codec::spec_rendre_membre(
        ps[3],
    ) + seq![','] + crate::codec::spec_rendre_membre(ps[4]) + seq![',']
        + crate::codec::spec_rendre_membre(ps[5]) + seq![','] + crate::codec::spec_rendre_membre(
        ps[6],
    ) + seq![','] + crate::codec::spec_rendre_membre(ps[7]) + seq![',']
        + crate::codec::spec_rendre_membre(ps[8]) + seq![','] + crate::codec::spec_rendre_membre(
        ps[9],
    ));
}

/// Every flight whose texts are quote-free comes back from its own JSON:
/// decoding what the encoder wrote yields the very same flight, its times
/// to the minute as they were written.
#[verifier::rlimit(100)]
pub proof fn lemma_vol_aller_retour(f: FlightV)
    requires
        spec_vol_rendable(f),
        f.takeoff.wf(),
        f.takeoff.second == 0,
        f.landing.wf(),
        f.landing.second == 0,
    ensures
        spec_depuis_json_vol(spec_json_vol(f)) == Some(f),
{
    let ps = spec_paires_vol(f);
    reveal_strlit("{\"numero_ogn\":");
    reveal_strlit(",\"code_decollage\":\"");
    reveal_strlit("\",\"machine_decollage\":\"");
    reveal_strlit("\",\"decolleur\":\"");
    reveal_strlit("\",\"aeronef\":\"");
    reveal_strlit("\",\"code_vol\":\"");
    reveal_strlit("\",\"pilote1\":\"");
    reveal_strlit("\",\"pilote2\":\"");
    reveal_strlit("\",\"decollage\":\"");
    reveal_strlit("\",\"atterissage\":\"");
    reveal_strlit("\"}");
    reveal_strlit("numero_ogn");
    reveal_strlit("code_decollage");
    reveal_strlit("machine_decollage");
    reveal_strlit("decolleur");
    reveal_strlit("aeronef");
    reveal_strlit("code_vol");
    reveal_strlit("pilote1");
    reveal_strlit("pilote2");
    reveal_strlit("decollage");
    reveal_strlit("atterissage");
    crate::temps::lemma_heure_hm_sans_guillemet(f.takeoff);
    crate::temps::lemma_heure_hm_sans_guillemet(f.landing);
    assert(forall|k: int|
        0 <= k < ps.len() ==> crate::codec::spec_paire_rendable(#[trigger] ps[k]));
    lemma_json_vol_forme(f);
    crate::codec::lemma_parse_objet_rendu(ps);
    assert(spec_parse_objet(spec_json_vol(f)) == Some(ps));
    // keys of equal length differ in at least one character
    assert("aeronef"@[0] != "pilote1"@[0]);
    assert("aeronef"@[0] != "pilote2"@[0]);
    assert("pilote1"@[6] != "pilote2"@[6]);
    assert("decolleur"@[6] != "decollage"@[6]);
    assert("aeronef"@ != "pilote1"@);
    assert("aeronef"@ != "pilote2"@);
    assert("pilote1"@ != "pilote2"@);
    assert("decolleur"@ != "decollage"@);
    // each key finds its own member: the ten keys are pairwise distinct
    assert(spec_entier_de(ps, "numero_ogn"@) == Some(f.ogn_nb as i64)) by {
        crate::codec::lemma_chercher_trouve(ps, 0);
    }
    assert(spec_texte_de(ps, "code_decollage"@) == Some(f.takeoff_code)) by {
        crate::codec::lemma_chercher_trouve(ps, 1);
    }
    assert(spec_texte_de(ps, "machine_decollage"@) == Some(f.takeoff_machine)) by {
        crate::codec::lemma_chercher_trouve(ps, 2);
    }
    assert(spec_texte_de(ps, "decolleur"@) == Some(f.takeoff_machine_pilot)) by {
        crate::codec::lemma_chercher_trouve(ps, 3);
    }
    assert(spec_texte_de(ps, "aeronef"@) == Some(f.glider)) by {
        crate::codec::lemma_chercher_trouve(ps, 4);
    }
    assert(spec_texte_de(ps, "code_vol"@) == Some(f.flight_code)) by {
        crate::codec::lemma_chercher_trouve(ps, 5);
    }
    assert(spec_texte_de(ps, "pilote1"@) == Some(f.pilot1)) by {
        crate::codec::lemma_chercher_trouve(ps, 6);
    }
    assert(spec_texte_de(ps, "pilote2"@) == Some(f.pilot2)) by {
        crate::codec::lemma_chercher_trouve(ps, 7);
    }
    assert(spec_texte_de(ps, "decollage"@) == Some(spec_heure_hm(f.takeoff))) by {
        crate::codec::lemma_chercher_trouve(ps, 8);
    }
    assert(spec_texte_de(ps, "atterissage"@) == Some(spec_heure_hm(f.landing))) by {
        crate::codec::lemma_chercher_trouve(ps, 9);
    }
    crate::temps::lemma_heure_aller_retour(f.takeoff);
    crate::temps::lemma_heure_aller_retour(f.landing);
    assert(spec_vol_de_paires(ps) == f);
}

/// The objects of a flight list joined by commas.
pub open spec fn spec_join_vols(fs: Seq<FlightV>) -> Seq<char>
    decreases fs.len(),
{
    if fs.len() == 0 {
        Seq::empty()
    } else if fs.len() == 1 {
        spec_json_vol(fs[0])
    } else {
        spec_json_vol(fs[0]) + seq![','] + spec_join_vols(fs.drop_first())
    }
}

/// The JSON text of a whole flight list.
pub open spec fn spec_json_vols(fs: Seq<FlightV>) -> Seq<char> {
    if fs.len() == 0 {
        seq!['[', '\n', ']']
    } else {
        seq!['[', '\n'] + spec_join_vols(fs) + seq!['\n', ']']
    }
}

proof fn lemma_join_vols_snoc(fs: Seq<FlightV>, f: FlightV)
    ensures
        spec_join_vols(fs.push(f)) == if fs.len() == 0 {
            spec_json_vol(f)
        } else {
            spec_join_vols(fs) + seq![','] + spec_json_vol(f)
        },
    decreases fs.len(),
{
    if fs.len() == 0 {
        assert(fs.push(f)[0] == f);
    } else {
        assert(fs.push(f)[0] == fs[0]);
        assert(fs.push(f).drop_first() =~= fs.drop_first().push(f));
        lemma_join_vols_snoc(fs.drop_first(), f);
        if fs.len() == 1 {
            assert(fs.drop_first().len() == 0);
            assert(spec_join_vols(fs.push(f)) == spec_json_vol(fs[0]) + seq![','] + spec_json_vol(
                f,
            ));
            assert(spec_join_vols(fs) == spec_json_vol(fs[0]));
        } else {
            assert(spec_join_vols(fs.push(f)) == spec_json_vol(fs[0]) + seq![',']
                + spec_join_vols(fs.drop_first().push(f)));
        }
    }
}

/// What flight lists the array decoder yields, one flight per object.
pub open spec fn spec_depuis_json_vols(s: Seq<char>) -> Option<Seq<FlightV>> {
    match spec_parse_tableau(s) {
        None => None,
        Some(objets) => Some(
            objets.map_values(|paires: Seq<JsonPairV>| spec_vol_de_paires(paires)),
        ),
    }
}

/// A trait that allows to encode and decode flight lists as JSON.
pub trait VolJson {
    /// The flights as mathematical values.
    spec fn vols_view(&self) -> Seq<FlightV>;

    /// Encodes the flight list as JSON text.
    fn vers_json(&self) -> (r: String)
        ensures
            r@ == spec_json_vols(self.vols_view()),
    ;

    /// Replaces the list with the flights decoded from JSON text; on a text
    /// that is no flight array of the format, leaves the list alone and
    /// says so.
    fn depuis_json(&mut self, texte: &str) -> (ok: bool)
        ensures
            match spec_depuis_json_vols(texte@) {
                Some(fs) => ok && final(self).vols_view() == fs,
                None => !ok && final(self).vols_view() == old(self).vols_view(),
            },
    ;
}

impl VolJson for Vec<Flight> {
    open spec fn vols_view(&self) -> Seq<FlightV> {
        self.deep_view()
    }

    fn vers_json(&self) -> (r: String) {
        let ghost fs = self.deep_view();
        if self.len() == 0 {
            let r = String::from_str("[\n]");
            proof {
                reveal_strlit("[\n]");
                assert(r@ =~= seq!['[', '\n', ']']);
            }
            return r;
        }
        let mut r = String::new();
        r.append("[\n");
        let mut i: usize = 0;
        while i < self.len()
            invariant
                0 < fs.len(),
                i <= fs.len(),
                self.deep_view() == fs,
                r@ == "[\n"@ + spec_join_vols(fs.take(i as int)) + (if 0 < i < fs.len() {
                    seq![',']
                } else {
                    Seq::<char>::empty()
                }),
            decreases fs.len() - i,
        {
            proof {
                assert(self.deep_view()[i as int] == self@[i as int]@);
            }
            let obj = self[i].vers_json();
            r.append(obj.as_str());
            if i + 1 < self.len() {
                r.append(",");
            }
            proof {
                reveal_strlit(",");
                assert(fs.take(i as int).push(fs[i as int]) =~= fs.take(i as int + 1));
                lemma_join_vols_snoc(fs.take(i as int), fs[i as int]);
                if i == 0 {
                    assert(fs.take(0int) =~= Seq::<FlightV>::empty());
                }
            }
            i += 1;
        }
        r.append("\n]");
        proof {
            reveal_strlit("[\n");
            reveal_strlit("\n]");
            assert(fs.take(fs.len() as int) =~= fs);
            assert(r@ =~= spec_json_vols(fs));
        }
        r
    }

    fn depuis_json(&mut self, texte: &str) -> (ok: bool) {
        match parse_tableau(texte) {
            None => false,
            Some(objets) => {
                let mut vols: Vec<Flight> = Vec::new();
                let ghost os = objets.deep_view();
                let mut i: usize = 0;
                while i < objets.len()
                    invariant
                        i <= os.len(),
                        objets.deep_view() == os,
                        vols.deep_view() =~= os.take(i as int).map_values(
                            |paires: Seq<JsonPairV>| spec_vol_de_paires(paires),
                        ),
                    decreases os.len() - i,
                {
                    proof {
                        assert(objets.deep_view()[i as int] == objets@[i as int].deep_view());
                    }
                    let vol = vol_de_paires(&objets[i]);
                    let ghost pre = vols.deep_view();
                    let ghost prev = vols@;
                    vols.push(vol);
                    proof {
                        let deco = |paires: Seq<JsonPairV>| spec_vol_de_paires(paires);
                        assert((i as int) < os.len());
                        assert(pre.len() == i as int);
                        assert(prev.len() == i as int);
                        assert(vols@ == prev.push(vol));
                        assert(vols.deep_view().len() == i as int + 1);
                        assert forall|m: int|
                            0 <= m < vols.deep_view().len() implies vols.deep_view()[m] == os.take(
                            i as int + 1,
                        ).map_values(deco)[m] by {
                            assert(vols.deep_view()[m] == vols@[m]@);
                            assert(os.take(i as int + 1)[m] == os[m]);
                            if m < i as int {
                                assert(vols@[m] == prev[m]);
                                assert(pre[m] == prev[m]@);
                                assert(pre[m] == os.take(i as int).map_values(deco)[m]);
                                assert(os.take(i as int)[m] == os[m]);
                            } else {
                                assert(vols@[m] == vol);
                            }
                        }
                        assert(vols.deep_view() =~= os.take(i as int + 1).map_values(
                            |paires: Seq<JsonPairV>| spec_vol_de_paires(paires),
                        ));
                    }
                    i += 1;
                }
                proof {
                    assert(os.take(os.len() as int) =~= os);
                }
                *self = vols;
                true
            },
        }
    }
}

} // verus!
