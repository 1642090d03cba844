//! Valeur calendaire ordonnee de la saison : annee, mois, jour, avec l'ordre
//! lexicographique et le classement en phase 1 / phase 2.

use vstd::prelude::*;

use crate::chaine::{
    indice_premier, lemme_indice_premier_unique, lire_nombre, tous_chiffres, valeur_chiffres,
};
use crate::{DEBSAISON_JOUR, DEBSAISON_MOIS, MISAISON_JOUR, MISAISON_MOIS};

verus! {

/// Une date du calendrier, comparee champ a champ : annee, puis mois, puis jour.
#[derive(Clone, Copy, Debug, PartialEq, Eq, Hash, Structural)]
pub struct Date {
    pub annee: u16,
    pub mois: u8,
    pub jour: u8,
}

/// Ordre strict lexicographique sur (annee, mois, jour).
pub open spec fn date_avant(a: Date, b: Date) -> bool {
    ||| a.annee < b.annee
    ||| (a.annee == b.annee && a.mois < b.mois)
    ||| (a.annee == b.annee && a.mois == b.mois && a.jour < b.jour)
}

/// Ordre large : strictement avant, ou egale.
pub open spec fn date_avant_ou_egale(a: Date, b: Date) -> bool {
    date_avant(a, b) || a == b
}

/// Une date appartient a la phase 2 si elle tombe entre la mi-saison
/// (11 janvier inclus) et le debut de saison (1er septembre exclu).
pub open spec fn en_phase2(d: Date) -> bool {
    ||| (MISAISON_MOIS < d.mois && d.mois < DEBSAISON_MOIS)
    ||| (d.mois == MISAISON_MOIS && MISAISON_JOUR <= d.jour)
    ||| (d.mois == DEBSAISON_MOIS && d.jour < DEBSAISON_JOUR)
}

/// La date lue d'un texte de la forme "JJ/MM/AAAA" : trois champs separes
/// par deux barres obliques, chacun une suite non vide de chiffres qui
/// tient dans son type — le jour, puis le mois, puis l'annee. Tout autre
/// texte ne donne rien.
pub open spec fn date_analysee(s: Seq<char>) -> Option<Date> {
    let i = indice_premier(s, '/');
    if i == s.len() {
        None
    } else {
        let reste = s.skip(i + 1);
        let j = indice_premier(reste, '/');
        if j == reste.len() {
            None
        } else {
            let t_jour = s.take(i);
            let t_mois = reste.take(j);
            let t_annee = reste.skip(j + 1);
            if t_annee.contains('/') {
                None
            } else if t_jour.len() > 0 && tous_chiffres(t_jour) && valeur_chiffres(t_jour) <= 255
                && t_mois.len() > 0 && tous_chiffres(t_mois) && valeur_chiffres(t_mois) <= 255
                && t_annee.len() > 0 && tous_chiffres(t_annee) && valeur_chiffres(t_annee)
                <= 65535 {
                Some(
                    Date {
                        annee: valeur_chiffres(t_annee) as u16,
                        mois: valeur_chiffres(t_mois) as u8,
                        jour: valeur_chiffres(t_jour) as u8,
                    },
                )
            } else {
                None
            }
        }
    }
}

impl Date {
    /// Lit une date d'un texte au format "JJ/MM/AAAA". Rend None — la faute
    /// attendue sur une entree mal formee — si le texte n'a pas trois
    /// champs, ou si un champ n'est pas une suite non vide de chiffres qui
    /// tient dans son type.
    pub fn analyser(s: &str) -> (r: Option<Date>)
        ensures
            r == date_analysee(s@),
    {
        let n = s.unicode_len();
        let mut i: usize = 0;
        while i < n && s.get_char(i) != '/'
            invariant
                0 <= i <= n,
                n == s@.len(),
                forall|k: int| 0 <= k < i ==> s@[k] != '/',
            decreases n - i,
        {
            i = i + 1;
        }
        proof {
            lemme_indice_premier_unique(s@, '/', i as int);
        }
        if i == n {
            return None;
        }
        let ghost reste = s@.skip(i as int + 1);
        proof {
            assert(forall|k: int| 0 <= k < reste.len() ==> reste[k] == s@[i + 1 + k]);
        }
        let mut j: usize = i + 1;
        while j < n && s.get_char(j) != '/'
            invariant
                i + 1 <= j <= n,
                n == s@.len(),
                forall|k: int| i + 1 <= k < j ==> s@[k] != '/',
            decreases n - j,
        {
            j = j + 1;
        }
        proof {
            lemme_indice_premier_unique(reste, '/', j - i - 1);
        }
        if j == n {
            return None;
        }
        let ghost t_annee = reste.skip(j - i - 1 + 1);
        proof {
            assert(forall|k: int| 0 <= k < t_annee.len() ==> t_annee[k] == s@[j + 1 + k]);
        }
        let mut k3: usize = j + 1;
        while k3 < n && s.get_char(k3) != '/'
            invariant
                j + 1 <= k3 <= n,
                n == s@.len(),
                forall|k: int| j + 1 <= k < k3 ==> s@[k] != '/',
            decreases n - k3,
        {
            k3 = k3 + 1;
        }
        if k3 < n {
            proof {
                assert(t_annee[k3 - (j + 1)] == '/');
                assert(t_annee.contains('/'));
            }
            return None;
        }
        proof {
            assert forall|k: int| 0 <= k < t_annee.len() implies t_annee[k] != '/' by {
                assert(t_annee[k] == s@[j + 1 + k]);
            }
            assert(!t_annee.contains('/'));
            assert(s@.take(i as int) =~= s@.subrange(0, i as int));
            assert(reste.take(j - i - 1) =~= s@.subrange(i as int + 1, j as int));
            assert(t_annee =~= s@.subrange(j as int + 1, n as int));
        }
        let jour = match lire_nombre(s, 0, i, 255) {
            Some(v) => v,
            None => {
                return None;
            },
        };
        let mois = match lire_nombre(s, i + 1, j, 255) {
            Some(v) => v,
            None => {
                return None;
            },
        };
        let annee = match lire_nombre(s, j + 1, n, 65535) {
            Some(v) => v,
            None => {
                return None;
            },
        };
        Some(Date { annee: annee as u16, mois: mois as u8, jour: jour as u8 })
    }

    /// S'appuie sur chrono : l'horloge locale du systeme donne la date du
    /// jour, dont chrono garantit que le mois va de 1 a 12 et le jour de
    /// 1 a 31. Rien n'est promis de l'annee ; si elle ne tient pas dans son
    /// type, rien n'est rendu.
    #[verifier::external_body]
    pub fn now() -> (r: Option<Date>)
        ensures
            r matches Some(d) ==> 1 <= d.mois <= 12 && 1 <= d.jour <= 31,
    {
        let maintenant = chrono::Local::now();
        match (
            u16::try_from(chrono::Datelike::year(&maintenant)),
            u8::try_from(chrono::Datelike::month(&maintenant)),
            u8::try_from(chrono::Datelike::day(&maintenant)),
        ) {
            (Ok(annee), Ok(mois), Ok(jour)) => Some(Date { annee, mois, jour }),
            _ => None,
        }
    }

    /// Construit la date donnee.
    pub fn new(annee: u16, mois: u8, jour: u8) -> (d: Date)
        ensures
            d == (Date { annee, mois, jour }),
    {
        Date { annee, mois, jour }
    }

    /// Comparaison executable : cette date vient-elle strictement avant l'autre ?
    pub fn avant(&self, autre: &Date) -> (r: bool)
        ensures
            r == date_avant(*self, *autre),
    {
        if self.annee != autre.annee {
            self.annee < autre.annee
        } else if self.mois != autre.mois {
            self.mois < autre.mois
        } else {
            self.jour < autre.jour
        }
    }

    /// Retourne si la date appartient a la phase 2
    pub fn phase2(&self) -> (r: bool)
        ensures
            r == en_phase2(*self),
    {
        // entre fevrier et aout
        (MISAISON_MOIS < self.mois && self.mois < DEBSAISON_MOIS)
        // fin janvier
            || (self.mois == MISAISON_MOIS && MISAISON_JOUR <= self.jour)
            // debut septembre
            || (self.mois == DEBSAISON_MOIS && self.jour < DEBSAISON_JOUR)
    }
}

impl PartialOrd for Date {
    fn partial_cmp(&self, other: &Self) -> (r: Option<core::cmp::Ordering>) {
        if self.annee != other.annee {
            if self.annee < other.annee {
                Some(core::cmp::Ordering::Less)
            } else {
                Some(core::cmp::Ordering::Greater)
            }
        } else if self.mois != other.mois {
            if self.mois < other.mois {
                Some(core::cmp::Ordering::Less)
            } else {
                Some(core::cmp::Ordering::Greater)
            }
        } else if self.jour != other.jour {
            if self.jour < other.jour {
                Some(core::cmp::Ordering::Less)
            } else {
                Some(core::cmp::Ordering::Greater)
            }
        } else {
            Some(core::cmp::Ordering::Equal)
        }
    }
}

impl vstd::std_specs::cmp::PartialOrdSpecImpl for Date {
    open spec fn obeys_partial_cmp_spec() -> bool {
        true
    }

    open spec fn partial_cmp_spec(&self, other: &Self) -> Option<core::cmp::Ordering> {
        if date_avant(*self, *other) {
            Some(core::cmp::Ordering::Less)
        } else if date_avant(*other, *self) {
            Some(core::cmp::Ordering::Greater)
        } else {
            Some(core::cmp::Ordering::Equal)
        }
    }
}

/// Loi d'ordre total : pour toutes dates, exactement une des trois relations
/// `avant`, `egale`, `apres` vaut, et l'ordre strict est transitif.
pub proof fn lemme_ordre_total(a: Date, b: Date, c: Date)
    ensures
        date_avant(a, b) ==> !(a == b) && !date_avant(b, a),
        a == b ==> !date_avant(a, b) && !date_avant(b, a),
        date_avant(b, a) ==> !(a == b) && !date_avant(a, b),
        date_avant(a, b) || a == b || date_avant(b, a),
        date_avant(a, b) && date_avant(b, c) ==> date_avant(a, c),
{
}

} // verus!
