//! The flat JSON objects the library reads and writes.
//!
//! Flights, crew assignments and edit requests all travel as one-level JSON
//! objects whose values are integers or plain strings.  This module gives
//! that wire format a precise grammar: a specification-level parser says
//! which texts are accepted and what they mean, and the executable parser
//! is proved to return exactly that.  Strings carry no escape sequences; a
//! quote ends them.

use vstd::prelude::*;

verus! {

/// A scalar value of the wire format.
pub enum JsonVal {
    /// An integer value.
    Entier(i64),
    /// A string value.
    Texte(String),
}

/// The mathematical value of a scalar.
pub enum JsonValV {
    Entier(i64),
    Texte(Seq<char>),
}

impl View for JsonVal {
    type V = JsonValV;

    open spec fn view(&self) -> JsonValV {
        match self {
            JsonVal::Entier(n) => JsonValV::Entier(*n),
            JsonVal::Texte(t) => JsonValV::Texte(t@),
        }
    }
}

impl DeepView for JsonVal {
    type V = JsonValV;

    open spec fn deep_view(&self) -> JsonValV {
        self.view()
    }
}

/// One `"key": value` member of an object.
pub struct JsonPair {
    pub cle: String,
    pub valeur: JsonVal,
}

/// The mathematical value of one member.
pub struct JsonPairV {
    pub cle: Seq<char>,
    pub valeur: JsonValV,
}

impl View for JsonPair {
    type V = JsonPairV;

    open spec fn view(&self) -> JsonPairV {
        JsonPairV { cle: self.cle@, valeur: self.valeur@ }
    }
}

impl DeepView for JsonPair {
    type V = JsonPairV;

    open spec fn deep_view(&self) -> JsonPairV {
        self.view()
    }
}

/// The whitespace the format tolerates between tokens.
pub open spec fn spec_is_ws(c: char) -> bool {
    c == ' ' || c == '\t' || c == '\n' || c == '\r'
}

/// A decimal digit.
pub open spec fn spec_is_digit(c: char) -> bool {
    '0' <= c && c <= '9'
}

/// The value of a decimal digit.
pub open spec fn spec_digit_val(c: char) -> int {
    c as int - '0' as int
}

/// First position at or after `i` that holds no whitespace.
pub open spec fn spec_skip_ws(s: Seq<char>, i: int) -> int
    decreases s.len() - i,
{
    if 0 <= i < s.len() && spec_is_ws(s[i]) {
        spec_skip_ws(s, i + 1)
    } else {
        i
    }
}

/// Position of the closing quote at or after `i`, `-1` if none comes.
pub open spec fn spec_fin_texte(s: Seq<char>, i: int) -> int
    decreases s.len() - i,
{
    if i < 0 || i >= s.len() {
        -1
    } else if s[i] == '"' {
        i
    } else {
        spec_fin_texte(s, i + 1)
    }
}

/// A quoted string starting at `i`: its characters and the position after
/// the closing quote.
pub open spec fn spec_parse_texte(s: Seq<char>, i: int) -> Option<(Seq<char>, int)> {
    if 0 <= i < s.len() && s[i] == '"' {
        let f = spec_fin_texte(s, i + 1);
        if f == -1 {
            None
        } else {
            Some((s.subrange(i + 1, f), f + 1))
        }
    } else {
        None
    }
}

/// Digits accumulated left to right onto `acc`; refuses a value that no
/// 64-bit integer holds.
pub open spec fn spec_parse_chiffres(s: Seq<char>, i: int, acc: int) -> Option<(int, int)>
    decreases s.len() - i,
{
    if 0 <= i < s.len() && spec_is_digit(s[i]) {
        let d = spec_digit_val(s[i]);
        if acc > (9223372036854775807 - d) / 10 {
            None
        } else {
            spec_parse_chiffres(s, i + 1, acc * 10 + d)
        }
    } else {
        Some((acc, i))
    }
}

/// An optionally signed integer starting at `i`.
pub open spec fn spec_parse_entier(s: Seq<char>, i: int) -> Option<(int, int)> {
    let (debut, negatif) = if 0 <= i < s.len() && s[i] == '-' {
        (i + 1, true)
    } else {
        (i, false)
    };
    if 0 <= debut < s.len() && spec_is_digit(s[debut]) {
        match spec_parse_chiffres(s, debut, 0) {
            None => None,
            Some((valeur, fin)) => Some(
                (
                    if negatif {
                        -valeur
                    } else {
                        valeur
                    },
                    fin,
                ),
            ),
        }
    } else {
        None
    }
}

/// A scalar: a quoted string or an integer.
pub open spec fn spec_parse_valeur(s: Seq<char>, i: int) -> Option<(JsonValV, int)> {
    if 0 <= i < s.len() && s[i] == '"' {
        match spec_parse_texte(s, i) {
            None => None,
            Some((t, j)) => Some((JsonValV::Texte(t), j)),
        }
    } else if 0 <= i < s.len() && (s[i] == '-' || spec_is_digit(s[i])) {
        match spec_parse_entier(s, i) {
            None => None,
            Some((n, j)) => Some((JsonValV::Entier(n as i64), j)),
        }
    } else {
        None
    }
}

/// One `"key": value` member starting at `i`.
pub open spec fn spec_parse_paire(s: Seq<char>, i: int) -> Option<(JsonPairV, int)> {
    match spec_parse_texte(s, i) {
        None => None,
        Some((cle, j)) => {
            let j2 = spec_skip_ws(s, j);
            if 0 <= j2 < s.len() && s[j2] == ':' {
                let j3 = spec_skip_ws(s, j2 + 1);
                match spec_parse_valeur(s, j3) {
                    None => None,
                    Some((valeur, j4)) => Some((JsonPairV { cle, valeur }, j4)),
                }
            } else {
                None
            }
        },
    }
}

/// A comma-separated run of members; ends with the position of whatever
/// follows them.  The fuel only bounds the recursion.
pub open spec fn spec_parse_paires(s: Seq<char>, i: int, fuel: nat) -> Option<
    (Seq<JsonPairV>, int),
>
    decreases fuel,
{
    if fuel == 0 {
        None
    } else {
        match spec_parse_paire(s, i) {
            None => None,
            Some((p, j)) => {
                let j2 = spec_skip_ws(s, j);
                if 0 <= j2 < s.len() && s[j2] == ',' {
                    let j3 = spec_skip_ws(s, j2 + 1);
                    match spec_parse_paires(s, j3, (fuel - 1) as nat) {
                        None => None,
                        Some((reste, j4)) => Some((seq![p] + reste, j4)),
                    }
                } else {
                    Some((seq![p], j2))
                }
            },
        }
    }
}

/// One object starting at `i`: its members and the position after the
/// closing brace.
pub open spec fn spec_parse_objet_a(s: Seq<char>, i: int) -> Option<(Seq<JsonPairV>, int)> {
    if 0 <= i < s.len() && s[i] == '{' {
        let j = spec_skip_ws(s, i + 1);
        if 0 <= j < s.len() && s[j] == '}' {
            Some((Seq::empty(), j + 1))
        } else {
            match spec_parse_paires(s, j, s.len()) {
                None => None,
                Some((paires, j2)) => {
                    if 0 <= j2 < s.len() && s[j2] == '}' {
                        Some((paires, j2 + 1))
                    } else {
                        None
                    }
                },
            }
        }
    } else {
        None
    }
}

/// A whole text holding exactly one object and nothing else.
pub open spec fn spec_parse_objet(s: Seq<char>) -> Option<Seq<JsonPairV>> {
    let i = spec_skip_ws(s, 0);
    match spec_parse_objet_a(s, i) {
        None => None,
        Some((paires, j)) => {
            if spec_skip_ws(s, j) == s.len() {
                Some(paires)
            } else {
                None
            }
        },
    }
}

/// A comma-separated run of objects; ends with the position of whatever
/// follows them.  The fuel only bounds the recursion.
pub open spec fn spec_parse_objets(s: Seq<char>, i: int, fuel: nat) -> Option<
    (Seq<Seq<JsonPairV>>, int),
>
    decreases fuel,
{
    if fuel == 0 {
        None
    } else {
        match spec_parse_objet_a(s, i) {
            None => None,
            Some((o, j)) => {
                let j2 = spec_skip_ws(s, j);
                if 0 <= j2 < s.len() && s[j2] == ',' {
                    let j3 = spec_skip_ws(s, j2 + 1);
                    match spec_parse_objets(s, j3, (fuel - 1) as nat) {
                        None => None,
                        Some((reste, j4)) => Some((seq![o] + reste, j4)),
                    }
                } else {
                    Some((seq![o], j2))
                }
            },
        }
    }
}

/// A whole text holding exactly one array of objects and nothing else.
pub open spec fn spec_parse_tableau(s: Seq<char>) -> Option<Seq<Seq<JsonPairV>>> {
    let i = spec_skip_ws(s, 0);
    if 0 <= i < s.len() && s[i] == '[' {
        let j = spec_skip_ws(s, i + 1);
        if 0 <= j < s.len() && s[j] == ']' {
            if spec_skip_ws(s, j + 1) == s.len() {
                Some(Seq::empty())
            } else {
                None
            }
        } else {
            match spec_parse_objets(s, j, s.len()) {
                None => None,
                Some((objets, j2)) => {
                    if 0 <= j2 < s.len() && s[j2] == ']' && spec_skip_ws(s, j2 + 1) == s.len() {
                        Some(objets)
                    } else {
                        None
                    }
                },
            }
        }
    } else {
        None
    }
}

/// Text that a quote scan runs through whole: it holds no quote.
pub open spec fn spec_sans_guillemet(t: Seq<char>) -> bool {
    forall|l: int| 0 <= l < t.len() ==> t.index(l) != '"'
}

/// The canonical rendering of a scalar, as the encoders write it.
pub open spec fn spec_rendre_valeur(v: JsonValV) -> Seq<char> {
    match v {
        JsonValV::Entier(n) => crate::temps::spec_dec_i32(n as int),
        JsonValV::Texte(t) => seq!['"'] + t + seq!['"'],
    }
}

/// The canonical rendering of one member.
pub open spec fn spec_rendre_membre(p: JsonPairV) -> Seq<char> {
    seq!['"'] + p.cle + seq!['"', ':'] + spec_rendre_valeur(p.valeur)
}

/// The canonical rendering of a run of members, comma-separated.
pub open spec fn spec_rendre_membres(ps: Seq<JsonPairV>) -> Seq<char>
    decreases ps.len(),
{
    if ps.len() == 0 {
        Seq::empty()
    } else if ps.len() == 1 {
        spec_rendre_membre(ps[0])
    } else {
        spec_rendre_membre(ps[0]) + seq![','] + spec_rendre_membres(ps.drop_first())
    }
}

/// The canonical rendering of a whole object.
pub open spec fn spec_rendre_objet(ps: Seq<JsonPairV>) -> Seq<char> {
    seq!['{'] + spec_rendre_membres(ps) + seq!['}']
}

/// A member whose rendering reads back: quote-free texts, and an integer
/// the scanner's 64 bits can hold.
pub open spec fn spec_paire_rendable(p: JsonPairV) -> bool {
    &&& spec_sans_guillemet(p.cle)
    &&& match p.valeur {
        JsonValV::Texte(t) => spec_sans_guillemet(t),
        JsonValV::Entier(n) => -9223372036854775807 <= n <= 9223372036854775807,
    }
}

/// The quote scan stops exactly on the first quote.
proof fn lemma_fin_texte_a(s: Seq<char>, i: int, j: int)
    requires
        0 <= i <= j < s.len(),
        forall|l: int| i <= l < j ==> s.index(l) != '"',
        s[j] == '"',
    ensures
        spec_fin_texte(s, i) == j,
    decreases j - i,
{
    if i < j {
        assert(s.index(i) != '"');
        lemma_fin_texte_a(s, i + 1, j);
    }
}

/// A quoted, quote-free text reads back as itself.
proof fn lemma_parse_texte_rendu(s: Seq<char>, i: int, t: Seq<char>)
    requires
        0 <= i,
        i + t.len() + 2 <= s.len(),
        s[i] == '"',
        s.subrange(i + 1, i + 1 + t.len() as int) == t,
        s[i + 1 + t.len()] == '"',
        spec_sans_guillemet(t),
    ensures
        spec_parse_texte(s, i) == Some((t, i + t.len() + 2)),
{
    assert forall|l: int| i + 1 <= l < i + 1 + t.len() implies s.index(l) != '"' by {
        assert(s.subrange(i + 1, i + 1 + t.len() as int)[l - i - 1] == s[l]);
        assert(t.index(l - i - 1) != '"');
    }
    lemma_fin_texte_a(s, i + 1, i + 1 + t.len() as int);
}

/// A rendered member followed by a comma or a closing brace reads back as
/// itself.
proof fn lemma_parse_membre_rendu(s: Seq<char>, i: int, p: JsonPairV)
    requires
        spec_paire_rendable(p),
        0 <= i,
        i + spec_rendre_membre(p).len() < s.len(),
        s.subrange(i, i + spec_rendre_membre(p).len() as int) == spec_rendre_membre(p),
        s[i + spec_rendre_membre(p).len()] == ',' || s[i + spec_rendre_membre(p).len()] == '}',
    ensures
        spec_parse_paire(s, i) == Some((p, i + spec_rendre_membre(p).len())),
{
    let m = spec_rendre_membre(p);
    let cle = p.cle;
    let fin = i + m.len() as int;
    assert(forall|l: int| i <= l < i + m.len() ==> s.index(l) == m[l - i]) by {
        assert(forall|l: int|
            i <= l < i + m.len() ==> s.subrange(i, i + m.len() as int)[l - i] == #[trigger] s.index(
                l,
            ));
    }
    assert(s[i] == '"');
    assert(s.subrange(i + 1, i + 1 + cle.len() as int) =~= cle);
    assert(s[i + 1 + cle.len()] == '"');
    lemma_parse_texte_rendu(s, i, cle);
    let deux_points = i + cle.len() + 2;
    assert(s[deux_points] == ':');
    assert(spec_skip_ws(s, deux_points) == deux_points);
    let pos = deux_points + 1;
    let v = spec_rendre_valeur(p.valeur);
    assert(pos + v.len() == fin);
    match p.valeur {
        JsonValV::Texte(t) => {
            assert(s[pos] == '"');
            assert(spec_skip_ws(s, pos) == pos);
            assert(s.subrange(pos + 1, pos + 1 + t.len() as int) =~= t);
            assert(s[pos + 1 + t.len()] == '"');
            lemma_parse_texte_rendu(s, pos, t);
            assert(spec_parse_valeur(s, pos) == Some((JsonValV::Texte(t), fin)));
        },
        JsonValV::Entier(n) => {
            assert(!spec_is_digit(s[fin]));
            if n >= 0 {
                let dec = crate::temps::spec_dec_nat(n as nat);
                assert(v == dec);
                crate::temps::lemma_dec_commence_par_chiffre(n as nat);
                assert(s.subrange(pos, pos + dec.len() as int) =~= dec);
                assert(s[pos] == dec[0]);
                assert(spec_is_digit(s[pos]));
                assert(s[pos] != '"' && s[pos] != '-');
                assert(spec_skip_ws(s, pos) == pos);
                crate::temps::lemma_parse_dec(s, pos, n as nat);
                assert(spec_parse_entier(s, pos) == Some((n as int, fin)));
                assert(spec_parse_valeur(s, pos) == Some((JsonValV::Entier(n), fin)));
            } else {
                let mag = (-n) as nat;
                let dec = crate::temps::spec_dec_nat(mag);
                assert(v == seq!['-'] + dec);
                assert(s[pos] == '-');
                assert(spec_skip_ws(s, pos) == pos);
                crate::temps::lemma_dec_commence_par_chiffre(mag);
                assert(s.subrange(pos + 1, pos + 1 + dec.len() as int) =~= dec);
                assert(s[pos + 1] == dec[0]);
                assert(spec_is_digit(s[pos + 1]));
                crate::temps::lemma_parse_dec(s, pos + 1, mag);
                assert(spec_parse_entier(s, pos) == Some((n as int, fin)));
                assert(spec_parse_valeur(s, pos) == Some((JsonValV::Entier(n), fin)));
            }
        },
    }
}

/// A rendered run of members, closed by a brace, reads back as itself.
proof fn lemma_parse_membres_rendus(s: Seq<char>, i: int, ps: Seq<JsonPairV>, fuel: nat)
    requires
        ps.len() >= 1,
        forall|k: int| 0 <= k < ps.len() ==> spec_paire_rendable(#[trigger] ps[k]),
        fuel >= ps.len(),
        0 <= i,
        i + spec_rendre_membres(ps).len() < s.len(),
        s.subrange(i, i + spec_rendre_membres(ps).len() as int) == spec_rendre_membres(ps),
        s[i + spec_rendre_membres(ps).len()] == '}',
    ensures
        spec_parse_paires(s, i, fuel) == Some((ps, i + spec_rendre_membres(ps).len())),
    decreases ps.len(),
{
    let ms = spec_rendre_membres(ps);
    let m0 = spec_rendre_membre(ps[0]);
    let fin = i + ms.len() as int;
    assert(forall|l: int| i <= l < i + ms.len() ==> s.index(l) == ms[l - i]) by {
        assert(forall|l: int|
            i <= l < i + ms.len() ==> s.subrange(i, i + ms.len() as int)[l - i]
                == #[trigger] s.index(l));
    }
    if ps.len() == 1 {
        assert(ms == m0);
        assert(s.subrange(i, i + m0.len() as int) =~= m0);
        lemma_parse_membre_rendu(s, i, ps[0]);
        let j = i + m0.len() as int;
        assert(s[j] == '}');
        assert(spec_skip_ws(s, j) == j);
        assert(seq![ps[0]] =~= ps);
    } else {
        let reste = ps.drop_first();
        let msr = spec_rendre_membres(reste);
        assert(ms == m0 + seq![','] + msr);
        assert(s.subrange(i, i + m0.len() as int) =~= m0);
        let j = i + m0.len() as int;
        assert(s[j] == ',');
        lemma_parse_membre_rendu(s, i, ps[0]);
        assert(spec_skip_ws(s, j) == j);
        let j3 = j + 1;
        assert(reste.len() >= 1);
        assert(spec_rendre_membre(reste[0])[0] == '"');
        assert(s.index(j3) == msr[0]);
        lemma_membres_commencent(reste);
        assert(s[j3] == '"');
        assert(spec_skip_ws(s, j3) == j3);
        assert(s.subrange(j3, j3 + msr.len() as int) =~= msr);
        assert(j3 + msr.len() == fin);
        assert(forall|k: int| 0 <= k < reste.len() ==> reste[k] == ps[k + 1]);
        lemma_parse_membres_rendus(s, j3, reste, (fuel - 1) as nat);
        assert(seq![ps[0]] + reste =~= ps);
    }
}

/// A rendered run of members starts with the quote of its first key.
proof fn lemma_membres_commencent(ps: Seq<JsonPairV>)
    requires
        ps.len() >= 1,
    ensures
        spec_rendre_membres(ps).len() >= 4,
        spec_rendre_membres(ps)[0] == '"',
{
    let m0 = spec_rendre_membre(ps[0]);
    assert(m0[0] == '"');
    if ps.len() > 1 {
        assert(spec_rendre_membres(ps)[0] == m0[0]);
    }
}

/// How long a rendered run at least is: one character per member and more.
proof fn lemma_membres_longueur(ps: Seq<JsonPairV>)
    ensures
        spec_rendre_membres(ps).len() >= ps.len(),
    decreases ps.len(),
{
    if ps.len() > 1 {
        lemma_membres_longueur(ps.drop_first());
        assert(spec_rendre_membre(ps[0]).len() >= 4);
    } else if ps.len() == 1 {
        assert(spec_rendre_membre(ps[0]).len() >= 4);
    }
}

/// A rendered object reads back as exactly its members: the decoder
/// inverts the canonical encoder.
pub proof fn lemma_parse_objet_rendu(ps: Seq<JsonPairV>)
    requires
        ps.len() >= 1,
        forall|k: int| 0 <= k < ps.len() ==> spec_paire_rendable(#[trigger] ps[k]),
    ensures
        spec_parse_objet(spec_rendre_objet(ps)) == Some(ps),
{
    let s = spec_rendre_objet(ps);
    let ms = spec_rendre_membres(ps);
    lemma_membres_commencent(ps);
    lemma_membres_longueur(ps);
    assert(s.len() == ms.len() + 2);
    assert(s[0] == '{');
    assert(spec_skip_ws(s, 0) == 0);
    assert(s[1] == ms[0]);
    assert(s[1] == '"');
    assert(spec_skip_ws(s, 1) == 1);
    assert(s.subrange(1, 1 + ms.len() as int) =~= ms);
    assert(s[1 + ms.len() as int] == '}');
    lemma_parse_membres_rendus(s, 1, ps, s.len());
    let j2 = 1 + ms.len() as int;
    assert(spec_parse_objet_a(s, 0) == Some((ps, j2 + 1)));
    assert(spec_skip_ws(s, j2 + 1) == j2 + 1);
}

/// Looking a key up finds the member that carries it, as long as no
/// earlier member shares the key.
pub proof fn lemma_chercher_trouve(ps: Seq<JsonPairV>, j: int)
    requires
        0 <= j < ps.len(),
        forall|l: int| 0 <= l < j ==> (#[trigger] ps[l]).cle != ps[j].cle,
    ensures
        spec_chercher(ps, ps[j].cle) == Some(ps[j].valeur),
    decreases j,
{
    if j > 0 {
        assert(ps[0].cle != ps[j].cle);
        assert(ps.drop_first()[j - 1] == ps[j]);
        assert(forall|l: int| 0 <= l < j - 1 ==> #[trigger] ps.drop_first()[l] == ps[l + 1]);
        lemma_chercher_trouve(ps.drop_first(), j - 1);
    }
}

/// The value under the first member of the given name, if any.
pub open spec fn spec_chercher(paires: Seq<JsonPairV>, cle: Seq<char>) -> Option<JsonValV>
    decreases paires.len(),
{
    if paires.len() == 0 {
        None
    } else if paires[0].cle == cle {
        Some(paires[0].valeur)
    } else {
        spec_chercher(paires.drop_first(), cle)
    }
}

/// The string under a name, `None` when absent or not a string.
pub open spec fn spec_texte_de(paires: Seq<JsonPairV>, cle: Seq<char>) -> Option<Seq<char>> {
    match spec_chercher(paires, cle) {
        Some(JsonValV::Texte(t)) => Some(t),
        _ => None,
    }
}

/// The integer under a name, `None` when absent or not an integer.
pub open spec fn spec_entier_de(paires: Seq<JsonPairV>, cle: Seq<char>) -> Option<i64> {
    match spec_chercher(paires, cle) {
        Some(JsonValV::Entier(n)) => Some(n),
        _ => None,
    }
}

fn skip_ws(s: &str, i: usize) -> (r: usize)
    requires
        i <= s@.len(),
    ensures
        r == spec_skip_ws(s@, i as int),
        i <= r <= s@.len(),
    decreases s@.len() - i,
{
    let n = s.unicode_len();
    if i < n {
        let c = s.get_char(i);
        if c == ' ' || c == '\t' || c == '\n' || c == '\r' {
            return skip_ws(s, i + 1);
        }
    }
    i
}

fn fin_texte(s: &str, i: usize) -> (r: Option<usize>)
    requires
        i <= s@.len(),
    ensures
        match r {
            Some(f) => spec_fin_texte(s@, i as int) == f as int && i <= f < s@.len(),
            None => spec_fin_texte(s@, i as int) == -1,
        },
    decreases s@.len() - i,
{
    let n = s.unicode_len();
    if i >= n {
        None
    } else if s.get_char(i) == '"' {
        Some(i)
    } else {
        fin_texte(s, i + 1)
    }
}

fn parse_texte(s: &str, i: usize) -> (r: Option<(String, usize)>)
    requires
        i <= s@.len(),
    ensures
        match r {
            Some((t, j)) => spec_parse_texte(s@, i as int) == Some((t@, j as int)) && i < j
                <= s@.len(),
            None => spec_parse_texte(s@, i as int) is None,
        },
{
    let n = s.unicode_len();
    if i < n && s.get_char(i) == '"' {
        match fin_texte(s, i + 1) {
            None => None,
            Some(f) => {
                let t = s.substring_char(i + 1, f).to_owned();
                Some((t, f + 1))
            },
        }
    } else {
        None
    }
}

pub(crate) fn parse_chiffres(s: &str, i: usize, acc: i64) -> (r: Option<(i64, usize)>)
    requires
        i <= s@.len(),
        acc >= 0,
    ensures
        match r {
            Some((v, j)) => spec_parse_chiffres(s@, i as int, acc as int) == Some(
                (v as int, j as int),
            ) && i <= j <= s@.len() && v >= 0,
            None => spec_parse_chiffres(s@, i as int, acc as int) is None,
        },
    decreases s@.len() - i,
{
    let n = s.unicode_len();
    if i < n {
        let c = s.get_char(i);
        if '0' <= c && c <= '9' {
            let d: i64 = (c as u32 as i64) - ('0' as u32 as i64);
            proof {
                assert(d == spec_digit_val(s@[i as int]));
                assert(0 <= d <= 9);
            }
            if acc > (9223372036854775807i64 - d) / 10 {
                return None;
            }
            return parse_chiffres(s, i + 1, acc * 10 + d);
        }
    }
    Some((acc, i))
}

fn parse_entier(s: &str, i: usize) -> (r: Option<(i64, usize)>)
    requires
        i <= s@.len(),
    ensures
        match r {
            Some((v, j)) => spec_parse_entier(s@, i as int) == Some((v as int, j as int)) && i
                <= j <= s@.len(),
            None => spec_parse_entier(s@, i as int) is None,
        },
{
    let n = s.unicode_len();
    let (debut, negatif) = if i < n && s.get_char(i) == '-' {
        (i + 1, true)
    } else {
        (i, false)
    };
    if debut < n {
        let c = s.get_char(debut);
        if '0' <= c && c <= '9' {
            return match parse_chiffres(s, debut, 0) {
                None => None,
                Some((valeur, fin)) => {
                    if negatif {
                        Some((-valeur, fin))
                    } else {
                        Some((valeur, fin))
                    }
                },
            };
        }
    }
    None
}

fn parse_valeur(s: &str, i: usize) -> (r: Option<(JsonVal, usize)>)
    requires
        i <= s@.len(),
    ensures
        match r {
            Some((v, j)) => spec_parse_valeur(s@, i as int) == Some((v@, j as int)) && i <= j
                <= s@.len(),
            None => spec_parse_valeur(s@, i as int) is None,
        },
{
    let n = s.unicode_len();
    if i < n && s.get_char(i) == '"' {
        match parse_texte(s, i) {
            None => None,
            Some((t, j)) => Some((JsonVal::Texte(t), j)),
        }
    } else if i < n && (s.get_char(i) == '-' || ('0' <= s.get_char(i) && s.get_char(i) <= '9')) {
        match parse_entier(s, i) {
            None => None,
            Some((v, j)) => Some((JsonVal::Entier(v), j)),
        }
    } else {
        None
    }
}

fn parse_paire(s: &str, i: usize) -> (r: Option<(JsonPair, usize)>)
    requires
        i <= s@.len(),
    ensures
        match r {
            Some((p, j)) => spec_parse_paire(s@, i as int) == Some((p@, j as int)) && i <= j
                <= s@.len(),
            None => spec_parse_paire(s@, i as int) is None,
        },
{
    let n = s.unicode_len();
    match parse_texte(s, i) {
        None => None,
        Some((cle, j)) => {
            let j2 = skip_ws(s, j);
            if j2 < n && s.get_char(j2) == ':' {
                let j3 = skip_ws(s, j2 + 1);
                match parse_valeur(s, j3) {
                    None => None,
                    Some((valeur, j4)) => Some((JsonPair { cle, valeur }, j4)),
                }
            } else {
                None
            }
        },
    }
}

fn parse_paires(s: &str, i: usize, fuel: usize) -> (r: Option<(Vec<JsonPair>, usize)>)
    requires
        i <= s@.len(),
    ensures
        match r {
            Some((ps, j)) => spec_parse_paires(s@, i as int, fuel as nat) == Some(
                (ps.deep_view(), j as int),
            ) && j <= s@.len(),
            None => spec_parse_paires(s@, i as int, fuel as nat) is None,
        },
    decreases fuel,
{
    let n = s.unicode_len();
    if fuel == 0 {
        return None;
    }
    match parse_paire(s, i) {
        None => None,
        Some((p, j)) => {
            let j2 = skip_ws(s, j);
            if j2 < n && s.get_char(j2) == ',' {
                let j3 = skip_ws(s, j2 + 1);
                match parse_paires(s, j3, fuel - 1) {
                    None => None,
                    Some((reste, j4)) => {
                        let mut ps: Vec<JsonPair> = Vec::new();
                        ps.push(p);
                        let mut reste = reste;
                        ps.append(&mut reste);
                        proof {
                            let ghost sp = spec_parse_paires(s@, i as int, fuel as nat);
                            assert(sp matches Some((sps, sj)) ==> ps.deep_view() =~= sps);
                        }
                        Some((ps, j4))
                    },
                }
            } else {
                let mut ps: Vec<JsonPair> = Vec::new();
                ps.push(p);
                proof {
                    assert(ps.deep_view() =~= seq![p@]);
                }
                Some((ps, j2))
            }
        },
    }
}

/// Parses a whole text as one flat object, as the grammar
/// [`spec_parse_objet`] accepts it.
pub fn parse_objet(s: &str) -> (r: Option<Vec<JsonPair>>)
    ensures
        match r {
            Some(ps) => spec_parse_objet(s@) == Some(ps.deep_view()),
            None => spec_parse_objet(s@) is None,
        },
{
    let n = s.unicode_len();
    let i = skip_ws(s, 0);
    match parse_objet_a(s, i) {
        None => None,
        Some((paires, j)) => {
            if skip_ws(s, j) == n {
                Some(paires)
            } else {
                None
            }
        },
    }
}

fn parse_objet_a(s: &str, i: usize) -> (r: Option<(Vec<JsonPair>, usize)>)
    requires
        i <= s@.len(),
    ensures
        match r {
            Some((ps, j)) => spec_parse_objet_a(s@, i as int) == Some((ps.deep_view(), j as int))
                && j <= s@.len(),
            None => spec_parse_objet_a(s@, i as int) is None,
        },
{
    let n = s.unicode_len();
    if i < n && s.get_char(i) == '{' {
        let j = skip_ws(s, i + 1);
        if j < n && s.get_char(j) == '}' {
            let ps: Vec<JsonPair> = Vec::new();
            proof {
                assert(ps.deep_view() =~= Seq::<JsonPairV>::empty());
            }
            Some((ps, j + 1))
        } else {
            match parse_paires(s, j, n) {
                None => None,
                Some((paires, j2)) => {
                    if j2 < n && s.get_char(j2) == '}' {
                        Some((paires, j2 + 1))
                    } else {
                        None
                    }
                },
            }
        }
    } else {
        None
    }
}

fn parse_objets(s: &str, i: usize, fuel: usize) -> (r: Option<(Vec<Vec<JsonPair>>, usize)>)
    requires
        i <= s@.len(),
    ensures
        match r {
            Some((os, j)) => spec_parse_objets(s@, i as int, fuel as nat) == Some(
                (os.deep_view(), j as int),
            ) && j <= s@.len(),
            None => spec_parse_objets(s@, i as int, fuel as nat) is None,
        },
    decreases fuel,
{
    let n = s.unicode_len();
    if fuel == 0 {
        return None;
    }
    match parse_objet_a(s, i) {
        None => None,
        Some((o, j)) => {
            let j2 = skip_ws(s, j);
            if j2 < n && s.get_char(j2) == ',' {
                let j3 = skip_ws(s, j2 + 1);
                match parse_objets(s, j3, fuel - 1) {
                    None => None,
                    Some((reste, j4)) => {
                        let mut os: Vec<Vec<JsonPair>> = Vec::new();
                        os.push(o);
                        let mut reste = reste;
                        os.append(&mut reste);
                        proof {
                            let ghost sp = spec_parse_objets(s@, i as int, fuel as nat);
                            assert(sp matches Some((sos, sj)) ==> os.deep_view() =~= sos);
                        }
                        Some((os, j4))
                    },
                }
            } else {
                let mut os: Vec<Vec<JsonPair>> = Vec::new();
                os.push(o);
                proof {
                    assert(os.deep_view() =~= seq![o.deep_view()]);
                }
                Some((os, j2))
            }
        },
    }
}

/// Parses a whole text as one array of flat objects, as the grammar
/// [`spec_parse_tableau`] accepts it.
pub fn parse_tableau(s: &str) -> (r: Option<Vec<Vec<JsonPair>>>)
    ensures
        match r {
            Some(os) => spec_parse_tableau(s@) == Some(os.deep_view()),
            None => spec_parse_tableau(s@) is None,
        },
{
    let n = s.unicode_len();
    let i = skip_ws(s, 0);
    if i < n && s.get_char(i) == '[' {
        let j = skip_ws(s, i + 1);
        if j < n && s.get_char(j) == ']' {
            if skip_ws(s, j + 1) == n {
                let os: Vec<Vec<JsonPair>> = Vec::new();
                proof {
                    assert(os.deep_view() =~= Seq::<Seq<JsonPairV>>::empty());
                }
                Some(os)
            } else {
                None
            }
        } else {
            match parse_objets(s, j, n) {
                None => None,
                Some((objets, j2)) => {
                    if j2 < n && s.get_char(j2) == ']' {
                        if skip_ws(s, j2 + 1) == n {
                            Some(objets)
                        } else {
                            None
                        }
                    } else {
                        None
                    }
                },
            }
        }
    } else {
        None
    }
}

/// Looks a string member up, as [`spec_texte_de`] reads it.
pub fn texte_de(paires: &Vec<JsonPair>, cle: &str) -> (r: Option<String>)
    ensures
        match r {
            Some(t) => spec_texte_de(paires.deep_view(), cle@) == Some(t@),
            None => spec_texte_de(paires.deep_view(), cle@) is None,
        },
{
    let cle_s: String = cle.to_owned();
    let ghost ps = paires.deep_view();
    proof {
        assert(ps.skip(0) =~= ps);
    }
    let mut i: usize = 0;
    while i < paires.len()
        invariant
            i <= ps.len(),
            paires.deep_view() == ps,
            cle_s@ == cle@,
            spec_chercher(ps, cle@) == spec_chercher(ps.skip(i as int), cle@),
        decreases ps.len() - i,
    {
        proof {
            assert(paires.deep_view()[i as int] == paires@[i as int]@);
            assert(ps.skip(i as int)[0] == ps[i as int]);
            assert(ps.skip(i as int).drop_first() =~= ps.skip(i as int + 1));
        }
        if paires[i].cle == cle_s {
            match &paires[i].valeur {
                JsonVal::Texte(t) => {
                    proof {
                        assert(paires.deep_view()[i as int] == paires@[i as int]@);
                        assert(ps[i as int].valeur == JsonValV::Texte(t@));
                        assert(spec_chercher(ps, cle@) == Some(JsonValV::Texte(t@)));
                    }
                    return Some(t.clone());
                },
                JsonVal::Entier(n) => {
                    proof {
                        assert(paires.deep_view()[i as int] == paires@[i as int]@);
                        assert(ps[i as int].valeur == JsonValV::Entier(*n));
                        assert(spec_chercher(ps, cle@) == Some(JsonValV::Entier(*n)));
                    }
                    return None;
                },
            }
        }
        i += 1;
    }
    proof {
        assert(ps.skip(ps.len() as int) =~= Seq::<JsonPairV>::empty());
    }
    None
}

/// Looks an integer member up, as [`spec_entier_de`] reads it.
pub fn entier_de(paires: &Vec<JsonPair>, cle: &str) -> (r: Option<i64>)
    ensures
        match r {
            Some(n) => spec_entier_de(paires.deep_view(), cle@) == Some(n),
            None => spec_entier_de(paires.deep_view(), cle@) is None,
        },
{
    let cle_s: String = cle.to_owned();
    let ghost ps = paires.deep_view();
    proof {
        assert(ps.skip(0) =~= ps);
    }
    let mut i: usize = 0;
    while i < paires.len()
        invariant
            i <= ps.len(),
            paires.deep_view() == ps,
            cle_s@ == cle@,
            spec_chercher(ps, cle@) == spec_chercher(ps.skip(i as int), cle@),
        decreases ps.len() - i,
    {
        proof {
            assert(paires.deep_view()[i as int] == paires@[i as int]@);
            assert(ps.skip(i as int)[0] == ps[i as int]);
            assert(ps.skip(i as int).drop_first() =~= ps.skip(i as int + 1));
        }
        if paires[i].cle == cle_s {
            match &paires[i].valeur {
                JsonVal::Entier(n) => {
                    proof {
                        assert(paires.deep_view()[i as int] == paires@[i as int]@);
                        assert(ps[i as int].valeur == JsonValV::Entier(*n));
                        assert(spec_chercher(ps, cle@) == Some(JsonValV::Entier(*n)));
                    }
                    return Some(*n);
                },
                JsonVal::Texte(t) => {
                    proof {
                        assert(paires.deep_view()[i as int] == paires@[i as int]@);
                        assert(ps[i as int].valeur == JsonValV::Texte(t@));
                        assert(spec_chercher(ps, cle@) == Some(JsonValV::Texte(t@)));
                    }
                    return None;
                },
            }
        }
        i += 1;
    }
    proof {
        assert(ps.skip(ps.len() as int) =~= Seq::<JsonPairV>::empty());
    }
    None
}

} // verus!
