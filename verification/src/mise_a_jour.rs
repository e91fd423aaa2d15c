//! Management of the updates: each field edit travels on its own, so a thin
//! client need not reload the whole flight log.
//!
//! An update names the flight (by its feed number), the edited field, the
//! new value and the day; the journal stamps it with the time it arrived
//! and drops it again once it is older than the retention window.

use crate::codec::{
    entier_de, parse_objet, spec_entier_de, spec_parse_objet, JsonPairV,
};
use crate::temps::{
    date_ymd_string, heure_hm_string, now_time, parse_date, spec_date_ymd, spec_heure_hm,
    spec_parse_date, Date, Time,
};
use crate::vol_json::spec_texte_ou_vide;
use vstd::prelude::*;
use vstd::seq_lib::group_seq_properties;

verus! {

/// One field edit, as the clients send it and the journal keeps it.
#[derive(Clone, Debug, PartialEq)]
pub struct MiseAJour {
    /// The feed number of the edited flight; zero addresses the day's crew
    /// assignment slots instead.
    pub numero_ogn: i32,
    /// The name of the field that was changed.
    pub champ_mis_a_jour: String,
    /// The new value of this field.
    pub nouvelle_valeur: String,
    /// The day of the flight on which the change is made.
    pub date: Date,
    /// The time at which the request was made.
    pub heure: Time,
}

/// The mathematical value of one update.
pub struct MiseAJourV {
    pub numero_ogn: i32,
    pub champ_mis_a_jour: Seq<char>,
    pub nouvelle_valeur: Seq<char>,
    pub date: Date,
    pub heure: Time,
}

impl View for MiseAJour {
    type V = MiseAJourV;

    open spec fn view(&self) -> MiseAJourV {
        MiseAJourV {
            numero_ogn: self.numero_ogn,
            champ_mis_a_jour: self.champ_mis_a_jour@,
            nouvelle_valeur: self.nouvelle_valeur@,
            date: self.date,
            heure: self.heure,
        }
    }
}

impl DeepView for MiseAJour {
    type V = MiseAJourV;

    open spec fn deep_view(&self) -> MiseAJourV {
        self.view()
    }
}

/// The value of an empty update.
pub open spec fn spec_maj_vide() -> MiseAJourV {
    MiseAJourV {
        numero_ogn: 0,
        champ_mis_a_jour: Seq::empty(),
        nouvelle_valeur: Seq::empty(),
        date: Date { year: 1970, month: 1, day: 1 },
        heure: Time::spec_sentinel(),
    }
}

/// The feed number an edit payload carries, zero when absent or out of
/// range.
pub open spec fn spec_numero_de(paires: Seq<JsonPairV>) -> i32 {
    match spec_entier_de(paires, "numero_ogn"@) {
        Some(n) => if -2147483648 <= n <= 2147483647 {
            n as i32
        } else {
            0
        },
        None => 0,
    }
}

/// The date an edit payload carries, the placeholder date when absent or
/// unreadable.
pub open spec fn spec_date_de(paires: Seq<JsonPairV>) -> Date {
    match spec_parse_date(spec_texte_ou_vide(paires, "date"@)) {
        Some(d) => d,
        None => Date { year: 1970, month: 1, day: 1 },
    }
}

impl Default for MiseAJour {
    /// An empty update.
    fn default() -> (m: MiseAJour)
        ensures
            m@ == spec_maj_vide(),
    {
        MiseAJour::new()
    }
}

impl MiseAJour {
    /// A new, empty update.
    pub fn new() -> (m: MiseAJour)
        ensures
            m@ == spec_maj_vide(),
    {
        MiseAJour {
            numero_ogn: 0,
            champ_mis_a_jour: String::new(),
            nouvelle_valeur: String::new(),
            date: Date { year: 1970, month: 1, day: 1 },
            heure: Time { hour: 0, minute: 0, second: 0 },
        }
    }

    /// Fills the update from the JSON text of an edit request.  A payload
    /// that is no object of the wire format leaves the update alone; a
    /// missing or unreadable member leaves its field at the default.  The
    /// time of the request is stamped from the clock.
    pub fn parse(&mut self, texte_json: &str) -> (r: Result<(), String>)
        ensures
            r is Ok,
            match spec_parse_objet(texte_json@) {
                Some(paires) => {
                    &&& final(self).numero_ogn == spec_numero_de(paires)
                    &&& final(self).champ_mis_a_jour@ == spec_texte_ou_vide(
                        paires,
                        "champ_mis_a_jour"@,
                    )
                    &&& final(self).nouvelle_valeur@ == spec_texte_ou_vide(
                        paires,
                        "nouvelle_valeur"@,
                    )
                    &&& final(self).date == spec_date_de(paires)
                    &&& final(self).heure.wf()
                },
                None => final(self)@ == old(self)@,
            },
    {
        match parse_objet(texte_json) {
            None => Ok(()),
            Some(paires) => {
                self.numero_ogn = match entier_de(&paires, "numero_ogn") {
                    Some(n) => if -2147483648i64 <= n && n <= 2147483647i64 {
                        n as i32
                    } else {
                        0
                    },
                    None => 0,
                };
                self.champ_mis_a_jour = crate::vol_json::texte_ou_vide(
                    &paires,
                    "champ_mis_a_jour",
                );
                self.nouvelle_valeur = crate::vol_json::texte_ou_vide(
                    &paires,
                    "nouvelle_valeur",
                );
                let date_texte = crate::vol_json::texte_ou_vide(&paires, "date");
                self.date = match parse_date(date_texte.as_str()) {
                    Some(d) => d,
                    None => Date { year: 1970, month: 1, day: 1 },
                };
                self.heure = now_time();
                Ok(())
            },
        }
    }

    /// Encodes the update as its JSON object.
    pub fn vers_json(&self) -> (r: String)
        ensures
            r@ == spec_json_maj(self@),
    {
        let mut r = String::new();
        r.append("{\"numero_ogn\":");
        let nb = crate::temps::dec_i32_string(self.numero_ogn);
        r.append(nb.as_str());
        r.append(",\"date\":\"");
        let date = date_ymd_string(&self.date);
        r.append(date.as_str());
        r.append("\",\"champ_mis_a_jour\":\"");
        r.append(self.champ_mis_a_jour.as_str());
        r.append("\",\"nouvelle_valeur\":\"");
        r.append(self.nouvelle_valeur.as_str());
        r.append("\",\"heure\":\"");
        let heure = heure_hm_string(&self.heure);
        r.append(heure.as_str());
        r.append("\"}");
        proof {
            assert(r@ =~= spec_json_maj(self@));
        }
        r
    }
}

/// The JSON text of one update.
pub open spec fn spec_json_maj(m: MiseAJourV) -> Seq<char> {
    "{\"numero_ogn\":"@ + crate::temps::spec_dec_i32(m.numero_ogn as int) + ",\"date\":\""@
        + spec_date_ymd(m.date) + "\",\"champ_mis_a_jour\":\""@ + m.champ_mis_a_jour
        + "\",\"nouvelle_valeur\":\""@ + m.nouvelle_valeur + "\",\"heure\":\""@ + spec_heure_hm(
        m.heure,
    ) + "\"}"@
}

/// The members of one update's JSON object, in encoder order.
pub open spec fn spec_paires_maj(m: MiseAJourV) -> Seq<JsonPairV> {
    seq![
        crate::codec::JsonPairV {
            cle: "numero_ogn"@,
            valeur: crate::codec::JsonValV::Entier(m.numero_ogn as i64),
        },
        crate::codec::JsonPairV {
            cle: "date"@,
            valeur: crate::codec::JsonValV::Texte(spec_date_ymd(m.date)),
        },
        crate::codec::JsonPairV {
            cle: "champ_mis_a_jour"@,
            valeur: crate::codec::JsonValV::Texte(m.champ_mis_a_jour),
        },
        crate::codec::JsonPairV {
            cle: "nouvelle_valeur"@,
            valeur: crate::codec::JsonValV::Texte(m.nouvelle_valeur),
        },
        crate::codec::JsonPairV {
            cle: "heure"@,
            valeur: crate::codec::JsonValV::Texte(spec_heure_hm(m.heure)),
        },
    ]
}

#[verifier::rlimit(100)]
proof fn lemma_json_maj_forme(m: MiseAJourV)
    ensures
        spec_json_maj(m) == crate::codec::spec_rendre_objet(spec_paires_maj(m)),
{
    reveal_strlit("{\"numero_ogn\":");
    reveal_strlit(",\"date\":\"");
    reveal_strlit("\",\"champ_mis_a_jour\":\"");
    reveal_strlit("\",\"nouvelle_valeur\":\"");
    reveal_strlit("\",\"heure\":\"");
    reveal_strlit("\"}");
    reveal_strlit("numero_ogn");
    reveal_strlit("date");
    reveal_strlit("champ_mis_a_jour");
    reveal_strlit("nouvelle_valeur");
    reveal_strlit("heure");
    let ps = spec_paires_maj(m);
    let r1 = ps.drop_first();
    let r2 = r1.drop_first();
    let r3 = r2.drop_first();
    let r4 = r3.drop_first();
    assert(r4.len() == 1);
    assert(r1[0] == ps[1] && r2[0] == ps[2] && r3[0] == ps[3] && r4[0] == ps[4]);
    let m0 = crate::codec::spec_rendre_membre(ps[0]);
    let m1 = crate::codec::spec_rendre_membre(ps[1]);
    let m2 = crate::codec::spec_rendre_membre(ps[2]);
    let m3 = crate::codec::spec_rendre_membre(ps[3]);
    let m4 = crate::codec::spec_rendre_membre(ps[4]);
    assert(crate::codec::spec_rendre_membres(r4) == m4);
    assert(crate::codec::spec_rendre_membres(r3) == m3 + seq![',']
        + crate::codec::spec_rendre_membres(r4));
    assert(crate::codec::spec_rendre_membres(r2) == m2 + seq![',']
        + crate::codec::spec_rendre_membres(r3));
    assert(crate::codec::spec_rendre_membres(r1) == m1 + seq![',']
        + crate::codec::spec_rendre_membres(r2));
    assert(crate::codec::spec_rendre_membres(ps) == m0 + seq![',']
        + crate::codec::spec_rendre_membres(r1));
    assert(spec_json_maj(m) =~= crate::codec::spec_rendre_objet(ps));
}

/// An update written out as JSON reads back with the same flight number,
/// field name, value and date; only the time stamp is taken from the clock
/// again.
#[verifier::rlimit(100)]
pub proof fn lemma_maj_aller_retour(m: MiseAJourV)
    requires
        crate::codec::spec_sans_guillemet(m.champ_mis_a_jour),
        crate::codec::spec_sans_guillemet(m.nouvelle_valeur),
        m.date.wf(),
        0 <= m.date.year <= 9999,
        m.heure.wf(),
    ensures
        spec_parse_objet(spec_json_maj(m)) matches Some(paires) && spec_numero_de(paires)
            == m.numero_ogn && spec_texte_ou_vide(paires, "champ_mis_a_jour"@)
            == m.champ_mis_a_jour && spec_texte_ou_vide(paires, "nouvelle_valeur"@)
            == m.nouvelle_valeur && spec_date_de(paires) == m.date,
{
    reveal_strlit("numero_ogn");
    reveal_strlit("date");
    reveal_strlit("champ_mis_a_jour");
    reveal_strlit("nouvelle_valeur");
    reveal_strlit("heure");
    let ps = spec_paires_maj(m);
    crate::temps::lemma_date_ymd_sans_guillemet(m.date);
    crate::temps::lemma_heure_hm_sans_guillemet(m.heure);
    assert(forall|k: int|
        0 <= k < ps.len() ==> crate::codec::spec_paire_rendable(#[trigger] ps[k]));
    lemma_json_maj_forme(m);
    crate::codec::lemma_parse_objet_rendu(ps);
    assert(spec_parse_objet(spec_json_maj(m)) == Some(ps));
    assert(spec_entier_de(ps, "numero_ogn"@) == Some(m.numero_ogn as i64)) by {
        crate::codec::lemma_chercher_trouve(ps, 0);
    }
    assert(crate::codec::spec_texte_de(ps, "date"@) == Some(spec_date_ymd(m.date))) by {
        crate::codec::lemma_chercher_trouve(ps, 1);
    }
    assert(crate::codec::spec_texte_de(ps, "champ_mis_a_jour"@) == Some(m.champ_mis_a_jour)) by {
        crate::codec::lemma_chercher_trouve(ps, 2);
    }
    assert(crate::codec::spec_texte_de(ps, "nouvelle_valeur"@) == Some(m.nouvelle_valeur)) by {
        crate::codec::lemma_chercher_trouve(ps, 3);
    }
    crate::temps::lemma_date_aller_retour(m.date);
    assert(spec_date_de(ps) == m.date);
}

/// The objects of an update list joined by commas.
pub open spec fn spec_join_majs(ms: Seq<MiseAJourV>) -> Seq<char>
    decreases ms.len(),
{
    if ms.len() == 0 {
        Seq::empty()
    } else if ms.len() == 1 {
        spec_json_maj(ms[0])
    } else {
        spec_json_maj(ms[0]) + seq![','] + spec_join_majs(ms.drop_first())
    }
}

/// The JSON text of a whole update list.
pub open spec fn spec_json_majs(ms: Seq<MiseAJourV>) -> Seq<char> {
    seq!['['] + spec_join_majs(ms) + seq![']']
}

proof fn lemma_join_majs_snoc(ms: Seq<MiseAJourV>, m: MiseAJourV)
    ensures
        spec_join_majs(ms.push(m)) == if ms.len() == 0 {
            spec_json_maj(m)
        } else {
            spec_join_majs(ms) + seq![','] + spec_json_maj(m)
        },
    decreases ms.len(),
{
    if ms.len() == 0 {
        assert(ms.push(m)[0] == m);
    } else {
        assert(ms.push(m)[0] == ms[0]);
        assert(ms.push(m).drop_first() =~= ms.drop_first().push(m));
        lemma_join_majs_snoc(ms.drop_first(), m);
        if ms.len() == 1 {
            assert(ms.drop_first().len() == 0);
            assert(spec_join_majs(ms) == spec_json_maj(ms[0]));
        }
    }
}

/// Takes care of the relation between several updates and JSON.
pub trait MiseAJourJson {
    /// The updates as mathematical values.
    spec fn majs_view(&self) -> Seq<MiseAJourV>;

    /// Encodes several updates as JSON text.
    fn vers_json(&self) -> (r: String)
        ensures
            r@ == spec_json_majs(self.majs_view()),
    ;
}

impl MiseAJourJson for Vec<MiseAJour> {
    open spec fn majs_view(&self) -> Seq<MiseAJourV> {
        self.deep_view()
    }

    fn vers_json(&self) -> (r: String) {
        let ghost ms = self.deep_view();
        let mut r = String::new();
        r.append("[");
        let mut i: usize = 0;
        while i < self.len()
            invariant
                i <= ms.len(),
                self.deep_view() == ms,
                r@ == "["@ + spec_join_majs(ms.take(i as int)) + (if 0 < i < ms.len() {
                    seq![',']
                } else {
                    Seq::<char>::empty()
                }),
            decreases ms.len() - i,
        {
            proof {
                assert(self.deep_view()[i as int] == self@[i as int]@);
            }
            let obj = self[i].vers_json();
            r.append(obj.as_str());
            if i + 1 < self.len() {
                r.append(",");
            }
            proof {
                reveal_strlit(",");
                assert(ms.take(i as int).push(ms[i as int]) =~= ms.take(i as int + 1));
                lemma_join_majs_snoc(ms.take(i as int), ms[i as int]);
                if i == 0 {
                    assert(ms.take(0int) =~= Seq::<MiseAJourV>::empty());
                }
            }
            i += 1;
        }
        r.append("]");
        proof {
            reveal_strlit("[");
            reveal_strlit("]");
            assert(ms.take(ms.len() as int) =~= ms);
            assert("["@ =~= seq!['[']);
            assert("]"@ =~= seq![']']);
            assert(r@ =~= spec_json_majs(ms));
        }
        r
    }
}

/// Whether an update is still young enough to stay in the journal: it is
/// evicted once strictly older than the retention, by the signed difference
/// of the times of day.
pub open spec fn spec_maj_gardee(m: MiseAJourV, maintenant: Time, retention_secondes: int) -> bool {
    !(maintenant.spec_seconds() - m.heure.spec_seconds() > retention_secondes)
}

/// The journal after eviction against the given clock reading.
pub open spec fn spec_enlever_obsoletes(
    ms: Seq<MiseAJourV>,
    maintenant: Time,
    retention_secondes: int,
) -> Seq<MiseAJourV> {
    ms.filter(|m: MiseAJourV| spec_maj_gardee(m, maintenant, retention_secondes))
}

/// Evicts every update strictly older than the retention, keeping the rest
/// in order: an update inserted at some time is still served while its age
/// is at most the retention, and no longer once it is past it.
pub fn enlever_majs_obsoletes_a(
    majs: &mut Vec<MiseAJour>,
    maintenant: Time,
    retention_secondes: u32,
)
    ensures
        final(majs).deep_view() == spec_enlever_obsoletes(
            old(majs).deep_view(),
            maintenant,
            retention_secondes as int,
        ),
{
    broadcast use group_seq_properties;

    let ghost orig: Seq<MiseAJourV> = majs.deep_view();
    let ghost garde = |m: MiseAJourV| spec_maj_gardee(m, maintenant, retention_secondes as int);
    let maintenant_secs = maintenant.seconds_of_day();
    let mut i: usize = 0;
    let ghost mut k: int = 0;
    proof {
        reveal(Seq::filter);
        assert(orig.take(0int) =~= Seq::<MiseAJourV>::empty());
        assert(orig.take(0int).filter(garde) =~= Seq::<MiseAJourV>::empty());
        assert(majs.deep_view() =~= orig.take(0int).filter(garde) + orig.skip(0int));
    }
    while i < majs.len()
        invariant
            0 <= k <= orig.len(),
            maintenant_secs == maintenant.spec_seconds(),
            garde == (|m: MiseAJourV| spec_maj_gardee(m, maintenant, retention_secondes as int)),
            i == orig.take(k).filter(garde).len(),
            majs.deep_view() =~= orig.take(k).filter(garde) + orig.skip(k),
            i <= majs.deep_view().len(),
        decreases orig.len() - k,
    {
        proof {
            reveal(Seq::filter);
            assert(majs.deep_view().len() == orig.take(k).filter(garde).len() + orig.len() - k);
            assert(k < orig.len());
            assert(majs.deep_view()[i as int] == orig.skip(k)[0]);
            assert(orig.skip(k)[0] == orig[k]);
            assert(majs.deep_view()[i as int] == majs@[i as int]@);
        }
        let age: i64 = maintenant_secs as i64 - majs[i].heure.seconds_of_day() as i64;
        let ghost pre = majs.deep_view();
        let ghost prev = majs@;
        proof {
            assert(orig.take(k).push(orig[k]) =~= orig.take(k + 1));
            assert(orig.take(k + 1).drop_last() =~= orig.take(k));
            assert(orig.take(k + 1).last() == orig[k]);
        }
        if age > retention_secondes as i64 {
            proof {
                reveal(Seq::filter);
                assert(orig[k].heure == majs@[i as int].heure);
                assert(maintenant.spec_seconds() - orig[k].heure.spec_seconds() > (
                retention_secondes as int));
                assert(!spec_maj_gardee(orig[k], maintenant, retention_secondes as int));
                assert(!garde(orig[k]));
                assert(orig.take(k + 1).filter(garde) =~= orig.take(k).filter(garde));
            }
            majs.remove(i);
            proof {
                assert forall|m: int|
                    0 <= m < majs.deep_view().len() implies majs.deep_view()[m] == (orig.take(
                    k + 1,
                ).filter(garde) + orig.skip(k + 1))[m] by {
                    assert(majs.deep_view()[m] == majs@[m]@);
                    prev.remove_ensures(i as int);
                    if m < i as int {
                        assert(majs@[m] == prev[m]);
                        assert(pre[m] == prev[m]@);
                    } else {
                        assert(majs@[m] == prev[m + 1]);
                        assert(pre[m + 1] == prev[m + 1]@);
                        assert(pre[m + 1] == orig.skip(k)[m + 1 - i]);
                        assert(orig.skip(k)[m + 1 - i] == orig.skip(k + 1)[m - i]);
                    }
                }
                assert(majs.deep_view() =~= orig.take(k + 1).filter(garde) + orig.skip(k + 1));
                k = k + 1;
            }
        } else {
            proof {
                reveal(Seq::filter);
                assert(orig[k].heure == majs@[i as int].heure);
                assert(!(maintenant.spec_seconds() - orig[k].heure.spec_seconds() > (
                retention_secondes as int)));
                assert(spec_maj_gardee(orig[k], maintenant, retention_secondes as int));
                assert(garde(orig[k]));
                assert(orig.take(k + 1).filter(garde) =~= orig.take(k).filter(garde).push(
                    orig[k],
                ));
                assert forall|m: int|
                    0 <= m < majs.deep_view().len() implies majs.deep_view()[m] == (orig.take(
                    k + 1,
                ).filter(garde) + orig.skip(k + 1))[m] by {
                    if m < i as int {
                    } else if m == i as int {
                    } else {
                        assert(orig.skip(k)[m - i] == orig.skip(k + 1)[m - i - 1]);
                    }
                }
                assert(majs.deep_view() =~= orig.take(k + 1).filter(garde) + orig.skip(k + 1));
                k = k + 1;
            }
            i += 1;
        }
    }
    proof {
        reveal(Seq::filter);
        assert(k == orig.len());
        assert(orig.take(k) =~= orig);
        assert(orig.skip(k) =~= Seq::<MiseAJourV>::empty());
        assert(majs.deep_view() =~= orig.filter(garde));
    }
}

/// Takes care of the updates grown too old.
pub trait MiseAJourObsoletes {
    /// The updates as mathematical values.
    spec fn majs_obsoletes_view(&self) -> Seq<MiseAJourV>;

    /// Removes the updates older than the given retention, read against
    /// the clock.
    fn enlever_majs_obsoletes(&mut self, retention_secondes: u32)
        ensures
            exists|maintenant: Time|
                maintenant.wf() && final(self).majs_obsoletes_view() == spec_enlever_obsoletes(
                    old(self).majs_obsoletes_view(),
                    maintenant,
                    retention_secondes as int,
                ),
    ;
}

impl MiseAJourObsoletes for Vec<MiseAJour> {
    open spec fn majs_obsoletes_view(&self) -> Seq<MiseAJourV> {
        self.deep_view()
    }

    fn enlever_majs_obsoletes(&mut self, retention_secondes: u32) {
        let maintenant = now_time();
        enlever_majs_obsoletes_a(self, maintenant, retention_secondes);
    }
}

} // verus!
