//! Equipe engagee en competition, rattachee a une poule. Le module lit
//! aussi, dans le lien de division d'une equipe, la division et le numero
//! de poule : les valeurs des derniers champs "D1" et "cx_poule" d'une
//! suite de champs separes par des esperluettes.

use vstd::prelude::*;

use crate::chaine::{apres_dernier, lemme_apres_dernier_bornes, lemme_apres_dernier_prefixe};
use crate::poule::Poule;

verus! {

/// Une equipe engagee en competition.
#[derive(Debug)]
pub struct Equipe {
    /// numero de l'equipe
    pub id: String,
    /// nom de l'equipe
    pub nom: String,
    /// libelle de l'epreuve
    pub _epreuve: String,
    /// nom de la division
    pub _division: String,
    /// poule de l'equipe
    pub poule: Poule,
}

/// La suite commence-t-elle par le motif ?
pub open spec fn commence_par(s: Seq<char>, motif: Seq<char>) -> bool {
    s.len() >= motif.len() && forall|k: int| 0 <= k < motif.len() ==> s[k] == #[trigger] motif[k]
}

/// Le dernier champ de la suite — les champs sont separes par des
/// esperluettes — qui commence par le motif, s'il existe : le champ de
/// queue s'il convient, sinon la reponse pour ce qui precede son
/// esperluette.
pub open spec fn dernier_champ_prefixe(s: Seq<char>, motif: Seq<char>) -> Option<Seq<char>>
    decreases s.len(),
{
    let p = apres_dernier(s, '&');
    let queue = s.skip(p);
    if commence_par(queue, motif) {
        Some(queue)
    } else if p == 0 {
        None
    } else if 0 <= p <= s.len() {
        dernier_champ_prefixe(s.take(p - 1), motif)
    } else {
        None
    }
}

/// Le motif du champ division.
pub open spec fn motif_division() -> Seq<char> {
    seq!['D', '1']
}

/// Le motif du champ poule.
pub open spec fn motif_poule() -> Seq<char> {
    seq!['c', 'x', '_', 'p', 'o', 'u', 'l', 'e']
}

/// La valeur d'un champ : ce qui suit son dernier signe egal, ou le champ
/// entier s'il n'en porte pas.
pub open spec fn valeur_champ(t: Seq<char>) -> Seq<char> {
    t.skip(apres_dernier(t, '='))
}

/// Ce que rend l'analyse d'un lien de division : les valeurs du dernier
/// champ "D1" et du dernier champ "cx_poule", si chacun existe.
pub open spec fn lien_poule_analyse(s: Seq<char>) -> Option<(Seq<char>, Seq<char>)> {
    let division = dernier_champ_prefixe(s, motif_division());
    let numero = dernier_champ_prefixe(s, motif_poule());
    if division is Some && numero is Some {
        Some((valeur_champ(division->Some_0), valeur_champ(numero->Some_0)))
    } else {
        None
    }
}

/// La suite de caracteres d'un texte commence-t-elle par celle d'un autre ?
fn commence(s: &str, motif: &str) -> (r: bool)
    ensures
        r == commence_par(s@, motif@),
{
    let m = motif.unicode_len();
    if s.unicode_len() < m {
        return false;
    }
    let mut k: usize = 0;
    while k < m
        invariant
            0 <= k <= m,
            m == motif@.len() <= s@.len(),
            forall|j: int| 0 <= j < k ==> s@[j] == motif@[j],
        decreases m - k,
    {
        if s.get_char(k) != motif.get_char(k) {
            return false;
        }
        k = k + 1;
    }
    true
}

/// L'indice qui suit la derniere occurrence du caractere dans le texte.
fn chercher_apres_dernier(s: &str, c: char) -> (r: usize)
    ensures
        r == apres_dernier(s@, c),
        0 <= r <= s@.len(),
{
    let n = s.unicode_len();
    let mut p: usize = 0;
    let mut i: usize = 0;
    proof {
        assert(s@.take(0) =~= Seq::<char>::empty());
    }
    while i < n
        invariant
            0 <= i <= n,
            n == s@.len(),
            0 <= p <= i,
            p == apres_dernier(s@.take(i as int), c),
        decreases n - i,
    {
        proof {
            lemme_apres_dernier_prefixe(s@, c, i as int);
        }
        if s.get_char(i) == c {
            p = i + 1;
        }
        i = i + 1;
    }
    proof {
        assert(s@.take(n as int) =~= s@);
    }
    p
}

/// Le dernier champ du texte qui commence par le motif, s'il existe.
fn chercher_dernier_champ<'a>(s: &'a str, motif: &str) -> (r: Option<&'a str>)
    ensures
        r matches Some(t) ==> dernier_champ_prefixe(s@, motif@) == Some(t@),
        r is None ==> dernier_champ_prefixe(s@, motif@) is None,
    decreases s@.len(),
{
    let n = s.unicode_len();
    let p = chercher_apres_dernier(s, '&');
    let queue = s.substring_char(p, n);
    proof {
        assert(queue@ =~= s@.skip(p as int));
    }
    if commence(queue, motif) {
        Some(queue)
    } else if p == 0 {
        None
    } else {
        let tete = s.substring_char(0, p - 1);
        proof {
            assert(tete@ =~= s@.take(p - 1));
        }
        chercher_dernier_champ(tete, motif)
    }
}

/// La valeur du champ : ce qui suit son dernier signe egal.
fn lire_valeur_champ(t: &str) -> (r: String)
    ensures
        r@ == valeur_champ(t@),
{
    let n = t.unicode_len();
    let p = chercher_apres_dernier(t, '=');
    let valeur = t.substring_char(p, n);
    proof {
        assert(valeur@ =~= t@.skip(p as int));
    }
    valeur.to_owned()
}

/// Lit, dans un lien de division, la division et le numero de poule : les
/// valeurs — ce qui suit le dernier signe egal — du dernier champ "D1" et
/// du dernier champ "cx_poule" du lien, dont les champs sont separes par
/// des esperluettes. Rend None — la faute attendue sur une entree mal
/// formee — des que l'un des deux champs manque.
pub fn analyser_lien_poule(lien: &str) -> (r: Option<Poule>)
    ensures
        (r is Some) == (lien_poule_analyse(lien@) is Some),
        r matches Some(p) ==> lien_poule_analyse(lien@) == Some((p.division@, p.numero@)),
{
    proof {
        reveal_strlit("D1");
        reveal_strlit("cx_poule");
        assert("D1"@ =~= motif_division());
        assert("cx_poule"@ =~= motif_poule());
    }
    let champ_division = match chercher_dernier_champ(lien, "D1") {
        Some(t) => t,
        None => {
            return None;
        },
    };
    let champ_numero = match chercher_dernier_champ(lien, "cx_poule") {
        Some(t) => t,
        None => {
            return None;
        },
    };
    let division = lire_valeur_champ(champ_division);
    let numero = lire_valeur_champ(champ_numero);
    Some(Poule { division, numero })
}

} // verus!
