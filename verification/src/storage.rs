//! The day-partitioned store, as decisions on plain values.
//!
//! A day lives in one `year/month/day` directory: one JSON file per flight,
//! named by its zero-padded position, and one reserved `affectations.json`
//! for the crew assignments.  The store never rewrites a file whose content
//! already matches — concurrent pollers would otherwise churn modification
//! times for nothing.  This module computes what to write and what a
//! directory's files mean; reading and writing the bytes is the server's
//! plumbing around it.

use crate::flight::{Flight, FlightV};
use crate::flightlog::{FlightLog, FlightLogV};
use crate::temps::Date;
use crate::vol_json::{spec_depuis_json_vol, spec_json_vol};
use vstd::prelude::*;

verus! {

/// The reserved file name of the day's crew assignments.
pub open spec fn spec_nom_affectations() -> Seq<char> {
    "affectations.json"@
}

/// The directory of a day under the data root, `year/month/day` with
/// zero-padded month and day.
pub open spec fn spec_chemin_jour(date: Date) -> Seq<char> {
    crate::temps::spec_date_ymd(date)
}

/// The directory of a day under the data root.
pub fn chemin_jour(date: &Date) -> (r: String)
    ensures
        r@ == spec_chemin_jour(*date),
{
    crate::temps::date_ymd_string(date)
}

/// The file name of the flight at a position: the zero-padded position and
/// `.json`.
pub open spec fn spec_nom_fichier_vol(index: int) -> Seq<char> {
    crate::spec_nb_2digits(index) + ".json"@
}

/// The file name of the flight at a position.
pub fn nom_fichier_vol(index: usize) -> (r: String)
    requires
        index <= 2147483647,
    ensures
        r@ == spec_nom_fichier_vol(index as int),
{
    let mut r = crate::nb_2digits_string(index as i32);
    r.append(".json");
    r
}

/// What one save pass writes: for each flight position, the new content if
/// the file on disk differs, nothing if it already matches.
pub open spec fn spec_plan_vols(vols: Seq<FlightV>, fichiers: Seq<Seq<char>>) -> Seq<
    Option<Seq<char>>,
> {
    Seq::new(
        vols.len(),
        |i: int|
            if fichiers[i] == spec_json_vol(vols[i]) {
                None
            } else {
                Some(spec_json_vol(vols[i]))
            },
    )
}

/// A directory's contents after a plan is carried out.
pub open spec fn spec_appliquer_plan(
    fichiers: Seq<Seq<char>>,
    plan: Seq<Option<Seq<char>>>,
) -> Seq<Seq<char>> {
    Seq::new(
        fichiers.len(),
        |i: int|
            if i < plan.len() {
                match plan[i] {
                    Some(contenu) => contenu,
                    None => fichiers[i],
                }
            } else {
                fichiers[i]
            },
    )
}

/// Computes one save pass over the day's flights: `fichiers[i]` is what the
/// file of position `i` holds now (empty when missing), and the result says
/// which files to write with what.  A file is written exactly when its
/// content differs from the flight's JSON.
pub fn plan_enregistrement(vols: &Vec<Flight>, fichiers: &Vec<String>) -> (plan: Vec<
    Option<String>,
>)
    requires
        fichiers@.len() == vols@.len(),
    ensures
        plan.deep_view() == spec_plan_vols(vols.deep_view(), fichiers.deep_view()),
{
    let mut plan: Vec<Option<String>> = Vec::new();
    let mut i: usize = 0;
    let ghost vs: Seq<FlightV> = vols.deep_view();
    let ghost fs: Seq<Seq<char>> = fichiers.deep_view();
    while i < vols.len()
        invariant
            i <= vs.len(),
            vols.deep_view() == vs,
            fichiers.deep_view() == fs,
            fs.len() == vs.len(),
            plan.deep_view().len() == i as int,
            forall|m: int|
                0 <= m < i ==> plan.deep_view()[m] == spec_plan_vols(vs, fs)[m],
        decreases vs.len() - i,
    {
        proof {
            assert(vols.deep_view()[i as int] == vols@[i as int]@);
            assert(fichiers.deep_view()[i as int] == fichiers@[i as int]@);
        }
        let contenu = vols[i].vers_json();
        let ghost pre = plan.deep_view();
        let ghost prev = plan@;
        if fichiers[i] == contenu {
            plan.push(None);
        } else {
            plan.push(Some(contenu));
        }
        proof {
            assert forall|m: int| 0 <= m < i as int + 1 implies plan.deep_view()[m]
                == spec_plan_vols(vs, fs)[m] by {
                assert(plan.deep_view()[m] == plan@[m].deep_view());
                if m < i as int {
                    assert(plan@[m] == prev[m]);
                    assert(pre[m] == prev[m].deep_view());
                    assert(pre[m] == spec_plan_vols(vs, fs)[m]);
                }
            }
        }
        i += 1;
    }
    proof {
        assert(plan.deep_view() =~= spec_plan_vols(vs, fs));
    }
    plan
}

/// Saving twice writes nothing the second time: once a plan has been
/// carried out, planning the same flights against the resulting directory
/// plans no write at all.
pub proof fn lemma_enregistrement_sans_changement(vols: Seq<FlightV>, fichiers: Seq<Seq<char>>)
    requires
        fichiers.len() == vols.len(),
    ensures
        spec_plan_vols(
            vols,
            spec_appliquer_plan(fichiers, spec_plan_vols(vols, fichiers)),
        ) =~= Seq::new(vols.len(), |i: int| None::<Seq<char>>),
{
}

/// The crew-assignment file of one log.
pub open spec fn spec_json_affectations(log: FlightLogV) -> Seq<char> {
    "{\"pilote_tr\":\""@ + log.pilote_tr + "\",\"treuil\":\""@ + log.treuil
        + "\",\"pilote_rq\":\""@ + log.pilote_rq + "\",\"remorqueur\":\""@ + log.remorqueur
        + "\",\"chef_piste\":\""@ + log.chef_piste + "\"}"@
}

/// Encodes the day's crew assignments as their reserved file.
pub fn affectations_vers_json(log: &FlightLog) -> (r: String)
    ensures
        r@ == spec_json_affectations(log@),
{
    let mut r = String::new();
    r.append("{\"pilote_tr\":\"");
    r.append(log.pilote_tr.as_str());
    r.append("\",\"treuil\":\"");
    r.append(log.treuil.as_str());
    r.append("\",\"pilote_rq\":\"");
    r.append(log.pilote_rq.as_str());
    r.append("\",\"remorqueur\":\"");
    r.append(log.remorqueur.as_str());
    r.append("\",\"chef_piste\":\"");
    r.append(log.chef_piste.as_str());
    r.append("\"}");
    proof {
        assert(r@ =~= spec_json_affectations(log@));
    }
    r
}

/// What the crew-assignment save writes: the new content when the file
/// differs, nothing when it already matches.
pub open spec fn spec_plan_affectations(log: FlightLogV, fichier: Seq<char>) -> Option<Seq<char>> {
    if fichier == spec_json_affectations(log) {
        None
    } else {
        Some(spec_json_affectations(log))
    }
}

/// Computes the crew-assignment write, under the same write-if-changed
/// rule as the flights.
pub fn plan_affectations(log: &FlightLog, fichier: &String) -> (r: Option<String>)
    ensures
        match r {
            Some(contenu) => spec_plan_affectations(log@, fichier@) == Some(contenu@),
            None => spec_plan_affectations(log@, fichier@) is None,
        },
{
    let contenu = affectations_vers_json(log);
    if *fichier == contenu {
        None
    } else {
        Some(contenu)
    }
}

/// Saving the crew assignments twice writes nothing the second time.
pub proof fn lemma_affectations_sans_changement(log: FlightLogV, fichier: Seq<char>)
    ensures
        spec_plan_affectations(
            log,
            match spec_plan_affectations(log, fichier) {
                Some(contenu) => contenu,
                None => fichier,
            },
        ) is None,
{
}

/// Fills the five crew slots of a log from the reserved file's text; a
/// text that is no object of the format leaves every slot empty, and so
/// does a missing member.
pub fn lire_affectations(log: &mut FlightLog, texte: &str)
    ensures
        final(log).pilote_tr@ == spec_affectation_de(texte@, "pilote_tr"@),
        final(log).treuil@ == spec_affectation_de(texte@, "treuil"@),
        final(log).pilote_rq@ == spec_affectation_de(texte@, "pilote_rq"@),
        final(log).remorqueur@ == spec_affectation_de(texte@, "remorqueur"@),
        final(log).chef_piste@ == spec_affectation_de(texte@, "chef_piste"@),
        final(log).date == old(log).date,
        final(log).flights == old(log).flights,
{
    match crate::codec::parse_objet(texte) {
        Some(paires) => {
            log.pilote_tr = crate::vol_json::texte_ou_vide(&paires, "pilote_tr");
            log.treuil = crate::vol_json::texte_ou_vide(&paires, "treuil");
            log.pilote_rq = crate::vol_json::texte_ou_vide(&paires, "pilote_rq");
            log.remorqueur = crate::vol_json::texte_ou_vide(&paires, "remorqueur");
            log.chef_piste = crate::vol_json::texte_ou_vide(&paires, "chef_piste");
        },
        None => {
            log.pilote_tr = String::new();
            log.treuil = String::new();
            log.pilote_rq = String::new();
            log.remorqueur = String::new();
            log.chef_piste = String::new();
        },
    }
}

/// The value of one crew slot as the reserved file's text gives it: empty
/// when the text is unreadable or the member missing.
pub open spec fn spec_affectation_de(texte: Seq<char>, cle: Seq<char>) -> Seq<char> {
    match crate::codec::spec_parse_objet(texte) {
        Some(paires) => crate::vol_json::spec_texte_ou_vide(paires, cle),
        None => Seq::empty(),
    }
}

/// The members of the crew-assignment file, in encoder order.
pub open spec fn spec_paires_affectations(log: FlightLogV) -> Seq<crate::codec::JsonPairV> {
    seq![
        crate::codec::JsonPairV {
            cle: "pilote_tr"@,
            valeur: crate::codec::JsonValV::Texte(log.pilote_tr),
        },
        crate::codec::JsonPairV {
            cle: "treuil"@,
            valeur: crate::codec::JsonValV::Texte(log.treuil),
        },
        crate::codec::JsonPairV {
            cle: "pilote_rq"@,
            valeur: crate::codec::JsonValV::Texte(log.pilote_rq),
        },
        crate::codec::JsonPairV {
            cle: "remorqueur"@,
            valeur: crate::codec::JsonValV::Texte(log.remorqueur),
        },
        crate::codec::JsonPairV {
            cle: "chef_piste"@,
            valeur: crate::codec::JsonValV::Texte(log.chef_piste),
        },
    ]
}

#[verifier::rlimit(100)]
proof fn lemma_json_affectations_forme(log: FlightLogV)
    ensures
        spec_json_affectations(log) == crate::codec::spec_rendre_objet(
            spec_paires_affectations(log),
        ),
{
    reveal_strlit("{\"pilote_tr\":\"");
    reveal_strlit("\",\"treuil\":\"");
    reveal_strlit("\",\"pilote_rq\":\"");
    reveal_strlit("\",\"remorqueur\":\"");
    reveal_strlit("\",\"chef_piste\":\"");
    reveal_strlit("\"}");
    reveal_strlit("pilote_tr");
    reveal_strlit("treuil");
    reveal_strlit("pilote_rq");
    reveal_strlit("remorqueur");
    reveal_strlit("chef_piste");
    let ps = spec_paires_affectations(log);
    let r1 = ps.drop_first();
    let r2 = r1.drop_first();
    let r3 = r2.drop_first();
    let r4 = r3.drop_first();
    assert(r4.len() == 1);
    assert(r1[0] == ps[1] && r2[0] == ps[2] && r3[0] == ps[3] && r4[0] == ps[4]);
    let m0 = crate::codec::spec_rendre_membre(ps[0]);
    let m1 = crate::codec::spec_rendre_membre(ps[1]);
    let m2 = crate::codec::spec_rendre_membre(ps[2]);
    let m3 = crate::codec::spec_rendre_membre(ps[3]);
    let m4 = crate::codec::spec_rendre_membre(ps[4]);
    assert(crate::codec::spec_rendre_membres(r4) == m4);
    assert(crate::codec::spec_rendre_membres(r3) == m3 + seq![',']
        + crate::codec::spec_rendre_membres(r4));
    assert(crate::codec::spec_rendre_membres(r2) == m2 + seq![',']
        + crate::codec::spec_rendre_membres(r3));
    assert(crate::codec::spec_rendre_membres(r1) == m1 + seq![',']
        + crate::codec::spec_rendre_membres(r2));
    assert(crate::codec::spec_rendre_membres(ps) == m0 + seq![',']
        + crate::codec::spec_rendre_membres(r1));
    assert(spec_json_affectations(log) =~= crate::codec::spec_rendre_objet(ps));
}

/// The crew file written for a day reads back as the same five slots, as
/// long as no slot's text holds a quote.
#[verifier::rlimit(100)]
pub proof fn lemma_affectations_aller_retour(log: FlightLogV)
    requires
        crate::codec::spec_sans_guillemet(log.pilote_tr),
        crate::codec::spec_sans_guillemet(log.treuil),
        crate::codec::spec_sans_guillemet(log.pilote_rq),
        crate::codec::spec_sans_guillemet(log.remorqueur),
        crate::codec::spec_sans_guillemet(log.chef_piste),
    ensures
        spec_affectation_de(spec_json_affectations(log), "pilote_tr"@) == log.pilote_tr,
        spec_affectation_de(spec_json_affectations(log), "treuil"@) == log.treuil,
        spec_affectation_de(spec_json_affectations(log), "pilote_rq"@) == log.pilote_rq,
        spec_affectation_de(spec_json_affectations(log), "remorqueur"@) == log.remorqueur,
        spec_affectation_de(spec_json_affectations(log), "chef_piste"@) == log.chef_piste,
{
    reveal_strlit("pilote_tr");
    reveal_strlit("treuil");
    reveal_strlit("pilote_rq");
    reveal_strlit("remorqueur");
    reveal_strlit("chef_piste");
    let ps = spec_paires_affectations(log);
    assert(forall|k: int|
        0 <= k < ps.len() ==> crate::codec::spec_paire_rendable(#[trigger] ps[k]));
    lemma_json_affectations_forme(log);
    crate::codec::lemma_parse_objet_rendu(ps);
    assert(crate::codec::spec_parse_objet(spec_json_affectations(log)) == Some(ps));
    // the two pairs of keys of equal length differ in one character
    assert("pilote_tr"@[7] != "pilote_rq"@[7]);
    assert("remorqueur"@[0] != "chef_piste"@[0]);
    assert("pilote_tr"@ != "pilote_rq"@);
    assert("remorqueur"@ != "chef_piste"@);
    assert(crate::codec::spec_texte_de(ps, "pilote_tr"@) == Some(log.pilote_tr)) by {
        crate::codec::lemma_chercher_trouve(ps, 0);
    }
    assert(crate::codec::spec_texte_de(ps, "treuil"@) == Some(log.treuil)) by {
        crate::codec::lemma_chercher_trouve(ps, 1);
    }
    assert(crate::codec::spec_texte_de(ps, "pilote_rq"@) == Some(log.pilote_rq)) by {
        crate::codec::lemma_chercher_trouve(ps, 2);
    }
    assert(crate::codec::spec_texte_de(ps, "remorqueur"@) == Some(log.remorqueur)) by {
        crate::codec::lemma_chercher_trouve(ps, 3);
    }
    assert(crate::codec::spec_texte_de(ps, "chef_piste"@) == Some(log.chef_piste)) by {
        crate::codec::lemma_chercher_trouve(ps, 4);
    }
}

/// One file of a day directory, by name and content.
pub struct FichierJour {
    /// The file's name inside the day directory.
    pub nom: String,
    /// The file's whole content.
    pub contenu: String,
}

/// The mathematical value of one directory file.
pub struct FichierJourV {
    pub nom: Seq<char>,
    pub contenu: Seq<char>,
}

impl View for FichierJour {
    type V = FichierJourV;

    open spec fn view(&self) -> FichierJourV {
        FichierJourV { nom: self.nom@, contenu: self.contenu@ }
    }
}

impl DeepView for FichierJour {
    type V = FichierJourV;

    open spec fn deep_view(&self) -> FichierJourV {
        self.view()
    }
}

/// The flights a day directory holds: every file but the reserved one, in
/// directory order, those that decode; order preserved.
pub open spec fn spec_vols_charges(fichiers: Seq<FichierJourV>) -> Seq<FlightV>
    decreases fichiers.len(),
{
    if fichiers.len() == 0 {
        Seq::empty()
    } else {
        let reste = spec_vols_charges(fichiers.drop_first());
        if fichiers[0].nom == spec_nom_affectations() {
            reste
        } else {
            match spec_depuis_json_vol(fichiers[0].contenu) {
                Some(f) => seq![f] + reste,
                None => reste,
            }
        }
    }
}

/// How many files of a day directory were passed over because they do not
/// decode.
pub open spec fn spec_nb_ignores(fichiers: Seq<FichierJourV>) -> int
    decreases fichiers.len(),
{
    if fichiers.len() == 0 {
        0
    } else {
        let reste = spec_nb_ignores(fichiers.drop_first());
        if fichiers[0].nom == spec_nom_affectations() {
            reste
        } else {
            match spec_depuis_json_vol(fichiers[0].contenu) {
                Some(f) => reste,
                None => reste + 1,
            }
        }
    }
}

/// Loads the flights of a day from its directory files, skipping the
/// reserved crew file; a file that does not decode is dropped, and the
/// count of such files is surfaced beside the flights.
pub fn charger_vols(fichiers: &Vec<FichierJour>) -> (r: (Vec<Flight>, usize))
    ensures
        r.0.deep_view() == spec_vols_charges(fichiers.deep_view()),
        r.1 as int == spec_nb_ignores(fichiers.deep_view()),
{
    let reserve = String::from_str("affectations.json");
    let mut vols: Vec<Flight> = Vec::new();
    let mut ignores: usize = 0;
    let ghost fs: Seq<FichierJourV> = fichiers.deep_view();
    let mut i: usize = 0;
    proof {
        assert(fs.skip(0int) =~= fs);
    }
    while i < fichiers.len()
        invariant
            i <= fs.len(),
            fichiers.deep_view() == fs,
            reserve@ == spec_nom_affectations(),
            ignores <= i,
            vols.deep_view().len() <= i as int,
            spec_vols_charges(fs) =~= vols.deep_view() + spec_vols_charges(fs.skip(i as int)),
            spec_nb_ignores(fs) == ignores as int + spec_nb_ignores(fs.skip(i as int)),
        decreases fs.len() - i,
    {
        proof {
            assert(fichiers.deep_view()[i as int] == fichiers@[i as int]@);
            assert(fs.skip(i as int)[0] == fs[i as int]);
            assert(fs.skip(i as int).drop_first() =~= fs.skip(i as int + 1));
        }
        let ghost pre: Seq<FlightV> = vols.deep_view();
        let ghost prev: Seq<Flight> = vols@;
        if !(fichiers[i].nom == reserve) {
            match Flight::depuis_json(fichiers[i].contenu.as_str()) {
                Some(vol) => {
                    vols.push(vol);
                    proof {
                        assert forall|m: int|
                            0 <= m < vols.deep_view().len() implies vols.deep_view()[m] == (pre
                            + seq![vol@])[m] by {
                            assert(vols.deep_view()[m] == vols@[m]@);
                            if m < pre.len() {
                                assert(vols@[m] == prev[m]);
                                assert(pre[m] == prev[m]@);
                            } else {
                                assert(vols@[m] == vol);
                            }
                        }
                        assert(vols.deep_view() =~= pre + seq![vol@]);
                        assert(spec_vols_charges(fs.skip(i as int)) == seq![vol@]
                            + spec_vols_charges(fs.skip(i as int + 1)));
                        assert((pre + seq![vol@]) + spec_vols_charges(fs.skip(i as int + 1)) =~= pre
                            + spec_vols_charges(fs.skip(i as int)));
                    }
                },
                None => {
                    ignores = ignores + 1;
                },
            }
        }
        i += 1;
    }
    proof {
        assert(fs.skip(fs.len() as int) =~= Seq::<FichierJourV>::empty());
        assert(vols.deep_view() + Seq::<FlightV>::empty() =~= vols.deep_view());
        assert(vols.deep_view() =~= spec_vols_charges(fs));
    }
    (vols, ignores)
}

} // verus!
