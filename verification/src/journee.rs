//! Journee de competition : une date et les matchs individuels joues ce
//! jour-la. L'egalite et l'ordre des journees ne regardent que la date,
//! jamais la liste des matchs : c'est voulu, l'algorithme de regroupement
//! des journees s'appuie dessus.
//!
//! Les points d'un match sont portes en centiemes de point par un entier,
//! ce qui rend leurs sommes exactes.

use vstd::prelude::*;

use crate::date::{date_avant, Date};

verus! {

/// Un match individuel.
#[derive(Clone, Copy, Debug, PartialEq, Eq, Structural)]
pub struct Match {
    /// les points gagnes ou perdus (coefficient compris), en centiemes de point
    pub ex: i64,
}

/// Une journee : l'ensemble des matchs individuels joues a une meme date.
#[derive(Debug)]
pub struct Journee {
    /// la date de la rencontre
    pub date: Date,
    /// l'ensemble des matchs individuels
    pub matchs: Vec<Match>,
}

/// La valeur mathematique d'une journee : sa date et la suite de ses matchs.
#[verifier::ext_equal]
pub ghost struct JourneeVue {
    pub date: Date,
    pub matchs: Seq<Match>,
}

impl View for Journee {
    type V = JourneeVue;

    open spec fn view(&self) -> JourneeVue {
        JourneeVue { date: self.date, matchs: self.matchs@ }
    }
}

/// L'ordre strict des journees : celui de leurs dates seules.
pub open spec fn journee_avant(a: JourneeVue, b: JourneeVue) -> bool {
    date_avant(a.date, b.date)
}

/// L'egalite des journees : meme date, quels que soient les matchs.
pub open spec fn journees_egales(a: JourneeVue, b: JourneeVue) -> bool {
    a.date == b.date
}

/// La somme des points d'une suite de matchs, en centiemes de point.
pub open spec fn somme_points(ms: Seq<Match>) -> int
    decreases ms.len(),
{
    if ms.len() == 0 {
        0
    } else {
        somme_points(ms.drop_last()) + ms.last().ex
    }
}

/// La somme des valeurs absolues des points d'une suite de matchs.
pub open spec fn somme_abs_points(ms: Seq<Match>) -> int
    decreases ms.len(),
{
    if ms.len() == 0 {
        0
    } else {
        somme_abs_points(ms.drop_last()) + vstd::math::abs(ms.last().ex as int)
    }
}

/// Les deux sommes se decomposent sur une concatenation.
pub proof fn lemme_somme_concat(a: Seq<Match>, b: Seq<Match>)
    ensures
        somme_points(a + b) == somme_points(a) + somme_points(b),
        somme_abs_points(a + b) == somme_abs_points(a) + somme_abs_points(b),
    decreases b.len(),
{
    if b.len() == 0 {
        assert(a + b =~= a);
    } else {
        assert((a + b).drop_last() =~= a + b.drop_last());
        assert((a + b).last() == b.last());
        lemme_somme_concat(a, b.drop_last());
    }
}

/// La somme des points est bornee par la somme de leurs valeurs absolues.
pub proof fn lemme_somme_bornee(ms: Seq<Match>)
    ensures
        0 <= somme_abs_points(ms),
        -somme_abs_points(ms) <= somme_points(ms) <= somme_abs_points(ms),
    decreases ms.len(),
{
    if ms.len() > 0 {
        lemme_somme_bornee(ms.drop_last());
    }
}

/// Un pas de plus dans un prefixe ajoute le match franchi aux deux sommes.
pub proof fn lemme_somme_prefixe(ms: Seq<Match>, i: int)
    requires
        0 <= i < ms.len(),
    ensures
        somme_points(ms.take(i + 1)) == somme_points(ms.take(i)) + ms[i].ex,
        somme_abs_points(ms.take(i + 1)) == somme_abs_points(ms.take(i)) + vstd::math::abs(
            ms[i].ex as int,
        ),
        somme_abs_points(ms.take(i)) <= somme_abs_points(ms),
        somme_abs_points(ms.take(i + 1)) <= somme_abs_points(ms),
{
    assert(ms.take(i + 1).drop_last() =~= ms.take(i));
    assert(ms.take(i + 1).last() == ms[i]);
    assert(ms =~= ms.take(i) + ms.skip(i));
    lemme_somme_concat(ms.take(i), ms.skip(i));
    lemme_somme_bornee(ms.skip(i));
    assert(ms =~= ms.take(i + 1) + ms.skip(i + 1));
    lemme_somme_concat(ms.take(i + 1), ms.skip(i + 1));
    lemme_somme_bornee(ms.skip(i + 1));
}

impl Journee {
    /// Indique si la journee fait partie de la saison commencee en septembre
    /// de l'annee donnee : de septembre a decembre de cette annee, ou de
    /// janvier a juin de l'annee suivante.
    pub fn est_saison(&self, annee: u16) -> (r: bool)
        ensures
            r == ((self@.date.annee == annee && self@.date.mois >= 9) || (self@.date.annee == annee
                + 1 && self@.date.mois <= 6)),
    {
        (self.date.annee == annee && self.date.mois >= 9) || (self.date.annee >= 1
            && self.date.annee - 1 == annee && self.date.mois <= 6)
    }

    /// Calcule les points obtenus durant la journee : la somme des points de
    /// ses matchs, nulle pour une journee sans match.
    pub fn ex(&self) -> (r: i64)
        requires
            somme_abs_points(self@.matchs) <= i64::MAX,
        ensures
            r == somme_points(self@.matchs),
    {
        let mut total: i64 = 0;
        let mut i: usize = 0;
        while i < self.matchs.len()
            invariant
                0 <= i <= self.matchs@.len(),
                somme_abs_points(self.matchs@) <= i64::MAX,
                total == somme_points(self.matchs@.take(i as int)),
            decreases self.matchs@.len() - i,
        {
            proof {
                lemme_somme_prefixe(self.matchs@, i as int);
                lemme_somme_bornee(self.matchs@.take(i as int + 1));
            }
            total = total + self.matchs[i].ex;
            i = i + 1;
        }
        proof {
            assert(self.matchs@.take(self.matchs@.len() as int) =~= self.matchs@);
        }
        total
    }

    /// La somme de deux journees : la date de la journee de gauche est
    /// conservee telle quelle, les matchs sont concatenes, ceux de gauche
    /// d'abord. L'appelant qui veut une journee coherente ne l'applique
    /// qu'a deux journees de meme date ; l'operation ne l'exige pas.
    pub fn ajouter(self, autre: Journee) -> (r: Journee)
        ensures
            r@.date == self@.date,
            r@.matchs == self@.matchs + autre@.matchs,
    {
        let mut matchs = self.matchs;
        let mut autres = autre.matchs;
        matchs.append(&mut autres);
        Journee { date: self.date, matchs }
    }

    /// Une copie de la journee, de meme valeur.
    pub fn copier(&self) -> (r: Journee)
        ensures
            r@ == self@,
    {
        let mut matchs: Vec<Match> = Vec::new();
        let mut i: usize = 0;
        while i < self.matchs.len()
            invariant
                0 <= i <= self.matchs@.len(),
                matchs@ =~= self.matchs@.take(i as int),
            decreases self.matchs@.len() - i,
        {
            matchs.push(self.matchs[i]);
            proof {
                assert(matchs@ =~= self.matchs@.take(i as int + 1));
            }
            i = i + 1;
        }
        proof {
            assert(matchs@ =~= self.matchs@);
        }
        Journee { date: self.date, matchs }
    }
}

impl PartialEq for Journee {
    /// Deux journees sont egales des que leurs dates le sont : les listes de
    /// matchs ne comptent pas.
    fn eq(&self, other: &Self) -> (r: bool) {
        self.date == other.date
    }
}

impl vstd::std_specs::cmp::PartialEqSpecImpl for Journee {
    open spec fn obeys_eq_spec() -> bool {
        true
    }

    open spec fn eq_spec(&self, other: &Self) -> bool {
        journees_egales(self@, other@)
    }
}

impl PartialOrd for Journee {
    /// L'ordre des journees est celui de leurs dates.
    fn partial_cmp(&self, other: &Self) -> (r: Option<core::cmp::Ordering>) {
        self.date.partial_cmp(&other.date)
    }
}

impl vstd::std_specs::cmp::PartialOrdSpecImpl for Journee {
    open spec fn obeys_partial_cmp_spec() -> bool {
        true
    }

    open spec fn partial_cmp_spec(&self, other: &Self) -> Option<core::cmp::Ordering> {
        if journee_avant(self@, other@) {
            Some(core::cmp::Ordering::Less)
        } else if journee_avant(other@, self@) {
            Some(core::cmp::Ordering::Greater)
        } else {
            Some(core::cmp::Ordering::Equal)
        }
    }
}

/// Egalite par date seule : deux journees de meme date sont egales et aucune
/// ne precede l'autre, quelles que soient leurs listes de matchs.
pub proof fn lemme_egalite_par_date(a: JourneeVue, b: JourneeVue)
    requires
        a.date == b.date,
    ensures
        journees_egales(a, b),
        !journee_avant(a, b),
        !journee_avant(b, a),
{
}

} // verus!
