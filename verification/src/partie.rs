//! Partie : l'agregat d'une saison, soit l'ensemble des journees d'un joueur
//! et leurs totaux. Deux operations le faconnent : la somme d'un ensemble de
//! parties brutes, puis le regroupement chronologique des journees, qui trie
//! par date et reunit les journees d'une meme date.

use vstd::prelude::*;

use crate::date::{date_avant, date_avant_ou_egale, Date};
use crate::journee::{Journee, JourneeVue, Match};
use crate::vues;

verus! {

/// Une partie : l'ensemble des rencontres d'une saison et leurs totaux.
#[derive(Debug)]
pub struct Partie {
    /// le nombre de matchs valides
    pub processed: u8,
    /// le nombre de matchs comptes
    pub num_matchs: u8,
    /// les points gagnes sur ces matchs, en centiemes de point
    pub ex: i64,
    /// les rencontres
    pub journees: Vec<Journee>,
}

/// La valeur mathematique d'une partie.
#[verifier::ext_equal]
pub ghost struct PartieVue {
    pub processed: u8,
    pub num_matchs: u8,
    pub ex: i64,
    pub journees: Seq<JourneeVue>,
}

impl View for Partie {
    type V = PartieVue;

    open spec fn view(&self) -> PartieVue {
        PartieVue {
            processed: self.processed,
            num_matchs: self.num_matchs,
            ex: self.ex,
            journees: vues(self.journees@),
        }
    }
}

/// La somme des comptes de matchs d'une suite de parties.
pub open spec fn somme_num_matchs(ps: Seq<PartieVue>) -> int
    decreases ps.len(),
{
    if ps.len() == 0 {
        0
    } else {
        somme_num_matchs(ps.drop_last()) + ps.last().num_matchs
    }
}

/// La somme des points d'une suite de parties.
pub open spec fn somme_ex(ps: Seq<PartieVue>) -> int
    decreases ps.len(),
{
    if ps.len() == 0 {
        0
    } else {
        somme_ex(ps.drop_last()) + ps.last().ex
    }
}

/// La somme des valeurs absolues des points d'une suite de parties.
pub open spec fn somme_abs_ex(ps: Seq<PartieVue>) -> int
    decreases ps.len(),
{
    if ps.len() == 0 {
        0
    } else {
        somme_abs_ex(ps.drop_last()) + vstd::math::abs(ps.last().ex as int)
    }
}

/// Les journees d'une suite de parties, mises bout a bout dans l'ordre.
pub open spec fn concat_journees(ps: Seq<PartieVue>) -> Seq<JourneeVue>
    decreases ps.len(),
{
    if ps.len() == 0 {
        Seq::empty()
    } else {
        concat_journees(ps.drop_last()) + ps.last().journees
    }
}

/// Les sommes et la concatenation se decomposent sur une concatenation de
/// suites de parties.
pub proof fn lemme_sommes_parties_concat(a: Seq<PartieVue>, b: Seq<PartieVue>)
    ensures
        somme_num_matchs(a + b) == somme_num_matchs(a) + somme_num_matchs(b),
        somme_ex(a + b) == somme_ex(a) + somme_ex(b),
        somme_abs_ex(a + b) == somme_abs_ex(a) + somme_abs_ex(b),
        concat_journees(a + b) == concat_journees(a) + concat_journees(b),
    decreases b.len(),
{
    if b.len() == 0 {
        assert(a + b =~= a);
        assert(concat_journees(a) + concat_journees(b) =~= concat_journees(a));
    } else {
        assert((a + b).drop_last() =~= a + b.drop_last());
        assert((a + b).last() == b.last());
        lemme_sommes_parties_concat(a, b.drop_last());
        assert(concat_journees(a) + concat_journees(b) =~= (concat_journees(a) + concat_journees(
            b.drop_last(),
        )) + b.last().journees);
    }
}

/// Les sommes d'une suite de parties sont bornees : les comptes sont
/// positifs, et la somme des points est bornee par la somme de leurs
/// valeurs absolues.
pub proof fn lemme_sommes_parties_bornees(ps: Seq<PartieVue>)
    ensures
        0 <= somme_num_matchs(ps),
        0 <= somme_abs_ex(ps),
        -somme_abs_ex(ps) <= somme_ex(ps) <= somme_abs_ex(ps),
    decreases ps.len(),
{
    if ps.len() > 0 {
        lemme_sommes_parties_bornees(ps.drop_last());
    }
}

/// Retrancher la partie de tete d'un suffixe : le suffixe a partir de `i`
/// est la partie d'indice `i` suivie du suffixe a partir de `i + 1`.
pub proof fn lemme_suffixe_parties(ps: Seq<PartieVue>, i: int)
    requires
        0 <= i < ps.len(),
    ensures
        somme_num_matchs(ps.skip(i)) == ps[i].num_matchs + somme_num_matchs(ps.skip(i + 1)),
        somme_ex(ps.skip(i)) == ps[i].ex + somme_ex(ps.skip(i + 1)),
        somme_abs_ex(ps.skip(i)) == vstd::math::abs(ps[i].ex as int) + somme_abs_ex(ps.skip(i + 1)),
        concat_journees(ps.skip(i)) == ps[i].journees + concat_journees(ps.skip(i + 1)),
        somme_num_matchs(ps.skip(i)) <= somme_num_matchs(ps),
        somme_abs_ex(ps.skip(i)) <= somme_abs_ex(ps),
{
    let seul = seq![ps[i]];
    assert(ps.skip(i) =~= seul + ps.skip(i + 1));
    lemme_sommes_parties_concat(seul, ps.skip(i + 1));
    assert(seul.len() == 1);
    assert(seul.last() == ps[i]);
    assert(seul.drop_last() =~= Seq::<PartieVue>::empty());
    assert(somme_num_matchs(seul) == somme_num_matchs(seul.drop_last()) + ps[i].num_matchs);
    assert(somme_ex(seul) == somme_ex(seul.drop_last()) + ps[i].ex);
    assert(somme_abs_ex(seul) == somme_abs_ex(seul.drop_last()) + vstd::math::abs(ps[i].ex as int));
    assert(concat_journees(seul) == concat_journees(seul.drop_last()) + ps[i].journees);
    assert(concat_journees(seul) =~= ps[i].journees);
    assert(ps =~= ps.take(i) + ps.skip(i));
    lemme_sommes_parties_concat(ps.take(i), ps.skip(i));
    lemme_sommes_parties_bornees(ps.take(i));
}

impl Partie {
    /// Une copie de la partie, de meme valeur.
    pub fn copier(&self) -> (r: Partie)
        ensures
            r@ == self@,
    {
        let mut journees: Vec<Journee> = Vec::new();
        let mut i: usize = 0;
        while i < self.journees.len()
            invariant
                0 <= i <= self.journees@.len(),
                journees@.len() == i,
                vues(journees@) =~= vues(self.journees@).take(i as int),
            decreases self.journees@.len() - i,
        {
            let e = self.journees[i].copier();
            let ghost avant = journees@;
            journees.push(e);
            proof {
                assert forall|k: int| 0 <= k < i as int + 1 implies vues(journees@)[k] == vues(
                    self.journees@,
                ).take(i as int + 1)[k] by {
                    if k < i as int {
                        assert(avant.push(e)[k] == avant[k]);
                        assert(vues(avant)[k] == vues(self.journees@).take(i as int)[k]);
                    } else {
                        assert(avant.push(e)[k] == e);
                    }
                }
                assert(vues(journees@) =~= vues(self.journees@).take(i as int + 1));
            }
            i = i + 1;
        }
        proof {
            assert(vues(journees@) =~= vues(self.journees@));
        }
        Partie {
            processed: self.processed,
            num_matchs: self.num_matchs,
            ex: self.ex,
            journees,
        }
    }

    /// La somme de deux parties : les comptes de matchs et les points
    /// s'additionnent, les journees se concatenent (celles de gauche
    /// d'abord), et le compte de matchs traites est repris de la partie de
    /// gauche seule — asymetrie voulue, conservee telle quelle.
    pub fn ajouter(self, autre: Partie) -> (r: Partie)
        requires
            self@.num_matchs + autre@.num_matchs <= u8::MAX,
            i64::MIN <= self@.ex + autre@.ex <= i64::MAX,
        ensures
            r@.processed == self@.processed,
            r@.num_matchs == self@.num_matchs + autre@.num_matchs,
            r@.ex == self@.ex + autre@.ex,
            r@.journees == self@.journees + autre@.journees,
    {
        let ghost js_gauche = vues(self.journees@);
        let ghost js_droite = vues(autre.journees@);
        let mut journees = self.journees;
        let mut autres = autre.journees;
        journees.append(&mut autres);
        proof {
            assert(vues(journees@) =~= js_gauche + js_droite);
        }
        Partie {
            processed: self.processed,
            num_matchs: self.num_matchs + autre.num_matchs,
            ex: self.ex + autre.ex,
            journees,
        }
    }

    /// La somme d'un ensemble de parties : le pli de `ajouter` sur l'agregat
    /// nul, la premiere partie la plus a gauche. Les comptes et les points
    /// s'additionnent, les journees se concatenent dans l'ordre d'entree, et
    /// le compte de matchs traites est celui de la premiere partie (zero si
    /// la suite est vide).
    pub fn sum_parties(parties: &[Partie]) -> (r: Partie)
        requires
            somme_num_matchs(vues(parties@)) <= u8::MAX,
            somme_abs_ex(vues(parties@)) <= i64::MAX,
        ensures
            r@.num_matchs == somme_num_matchs(vues(parties@)),
            r@.ex == somme_ex(vues(parties@)),
            r@.journees == concat_journees(vues(parties@)),
            r@.processed == if parties@.len() == 0 {
                0
            } else {
                vues(parties@)[0].processed as int
            },
    {
        let ghost ps = vues(parties@);
        let mut r = Partie { processed: 0, num_matchs: 0, ex: 0, journees: Vec::new() };
        proof {
            assert(ps.skip(parties@.len() as int) =~= Seq::<PartieVue>::empty());
            assert(vues(r.journees@) =~= Seq::<JourneeVue>::empty());
        }
        let mut i: usize = parties.len();
        while i > 0
            invariant
                0 <= i <= parties@.len(),
                ps == vues(parties@),
                somme_num_matchs(ps) <= u8::MAX,
                somme_abs_ex(ps) <= i64::MAX,
                r@.num_matchs == somme_num_matchs(ps.skip(i as int)),
                r@.ex == somme_ex(ps.skip(i as int)),
                r@.journees == concat_journees(ps.skip(i as int)),
                r@.processed == if i == parties@.len() {
                    0
                } else {
                    ps[i as int].processed as int
                },
            decreases i,
        {
            i = i - 1;
            proof {
                lemme_suffixe_parties(ps, i as int);
                lemme_sommes_parties_bornees(ps.skip(i as int));
                lemme_sommes_parties_bornees(ps.skip(i as int + 1));
            }
            let p = parties[i].copier();
            r = p.ajouter(r);
        }
        proof {
            assert(ps.skip(0) =~= ps);
        }
        r
    }
}

/// Une suite de journees aux dates croissantes, au sens large.
pub open spec fn triee_large(js: Seq<JourneeVue>) -> bool {
    forall|i: int, j: int|
        #![trigger js[i], js[j]]
        0 <= i < j < js.len() ==> date_avant_ou_egale(js[i].date, js[j].date)
}

/// Une suite de journees aux dates strictement croissantes.
pub open spec fn triee_stricte(js: Seq<JourneeVue>) -> bool {
    forall|i: int, j: int|
        #![trigger js[i], js[j]]
        0 <= i < j < js.len() ==> date_avant(js[i].date, js[j].date)
}

/// Les journees d'une suite qui tombent a la date donnee, dans leur ordre.
pub open spec fn filtre_date(js: Seq<JourneeVue>, d: Date) -> Seq<JourneeVue>
    decreases js.len(),
{
    if js.len() == 0 {
        Seq::empty()
    } else if js.last().date == d {
        filtre_date(js.drop_last(), d).push(js.last())
    } else {
        filtre_date(js.drop_last(), d)
    }
}

/// Les matchs d'une suite de journees, mis bout a bout dans l'ordre.
pub open spec fn concat_matchs(js: Seq<JourneeVue>) -> Seq<Match>
    decreases js.len(),
{
    if js.len() == 0 {
        Seq::empty()
    } else {
        concat_matchs(js.drop_last()) + js.last().matchs
    }
}

/// Tous les matchs joues a la date donnee, dans l'ordre d'entree.
pub open spec fn matchs_date(js: Seq<JourneeVue>, d: Date) -> Seq<Match> {
    concat_matchs(filtre_date(js, d))
}

/// Le filtre par date et la concatenation des matchs se decomposent sur une
/// concatenation de suites de journees.
pub proof fn lemme_filtre_concat(a: Seq<JourneeVue>, b: Seq<JourneeVue>, d: Date)
    ensures
        filtre_date(a + b, d) == filtre_date(a, d) + filtre_date(b, d),
        concat_matchs(a + b) == concat_matchs(a) + concat_matchs(b),
    decreases b.len(),
{
    if b.len() == 0 {
        assert(a + b =~= a);
        assert(filtre_date(a, d) + filtre_date(b, d) =~= filtre_date(a, d));
        assert(concat_matchs(a) + concat_matchs(b) =~= concat_matchs(a));
    } else {
        assert((a + b).drop_last() =~= a + b.drop_last());
        assert((a + b).last() == b.last());
        lemme_filtre_concat(a, b.drop_last(), d);
        if b.last().date == d {
            assert((filtre_date(a, d) + filtre_date(b.drop_last(), d)).push(b.last()) =~= filtre_date(
                a,
                d,
            ) + filtre_date(b.drop_last(), d).push(b.last()));
        }
        assert((concat_matchs(a) + concat_matchs(b.drop_last())) + b.last().matchs =~= concat_matchs(
            a,
        ) + (concat_matchs(b.drop_last()) + b.last().matchs));
    }
}

/// Les matchs d'une suite de journees prolongee d'une journee.
pub proof fn lemme_concat_matchs_ajout(js: Seq<JourneeVue>, j: JourneeVue)
    ensures
        concat_matchs(js.push(j)) == concat_matchs(js) + j.matchs,
{
    assert(js.push(j).drop_last() =~= js);
    assert(js.push(j).last() == j);
}

/// Avancer d'une journee dans un prefixe : la journee franchie rejoint le
/// filtre de sa date et lui seul.
pub proof fn lemme_filtre_prefixe(js: Seq<JourneeVue>, i: int, d: Date)
    requires
        0 <= i < js.len(),
    ensures
        js[i].date == d ==> filtre_date(js.take(i + 1), d) == filtre_date(js.take(i), d).push(
            js[i],
        ),
        js[i].date == d ==> matchs_date(js.take(i + 1), d) == matchs_date(js.take(i), d)
            + js[i].matchs,
        js[i].date != d ==> filtre_date(js.take(i + 1), d) == filtre_date(js.take(i), d),
        js[i].date != d ==> matchs_date(js.take(i + 1), d) == matchs_date(js.take(i), d),
{
    assert(js.take(i + 1).drop_last() =~= js.take(i));
    assert(js.take(i + 1).last() == js[i]);
    if js[i].date == d {
        lemme_concat_matchs_ajout(filtre_date(js.take(i), d), js[i]);
    }
}

/// Aucune journee a la date donnee : le filtre est vide.
pub proof fn lemme_filtre_absent(js: Seq<JourneeVue>, d: Date)
    requires
        forall|k: int| 0 <= k < js.len() ==> (#[trigger] js[k]).date != d,
    ensures
        filtre_date(js, d) == Seq::<JourneeVue>::empty(),
        matchs_date(js, d) == Seq::<Match>::empty(),
    decreases js.len(),
{
    if js.len() > 0 {
        assert(forall|k: int|
            0 <= k < js.drop_last().len() ==> (#[trigger] js.drop_last()[k]).date != d);
        lemme_filtre_absent(js.drop_last(), d);
    }
    assert(concat_matchs(Seq::<JourneeVue>::empty()) == Seq::<Match>::empty());
}

/// Une journee de la suite tombe-t-elle a la date donnee ?
pub open spec fn date_presente(js: Seq<JourneeVue>, d: Date) -> bool {
    exists|m: int| 0 <= m < js.len() && (#[trigger] js[m]).date == d
}

/// La suite porte-t-elle une journee de meme date et memes matchs que la
/// journee donnee ?
pub open spec fn meme_journee_presente(js: Seq<JourneeVue>, j: JourneeVue) -> bool {
    exists|m: int|
        0 <= m < js.len() && (#[trigger] js[m]).date == j.date && js[m].matchs == j.matchs
}

/// Le filtre d'une date est habite si et seulement si la date est presente.
pub proof fn lemme_filtre_presence(js: Seq<JourneeVue>, d: Date)
    ensures
        filtre_date(js, d).len() > 0 <==> date_presente(js, d),
    decreases js.len(),
{
    if js.len() > 0 {
        lemme_filtre_presence(js.drop_last(), d);
        if js.last().date == d {
            assert(js[js.len() - 1].date == d);
            assert(date_presente(js, d));
        } else {
            if date_presente(js, d) {
                let k = choose|k: int| 0 <= k < js.len() && (#[trigger] js[k]).date == d;
                assert(js.drop_last()[k].date == d);
                assert(date_presente(js.drop_last(), d));
            }
            if date_presente(js.drop_last(), d) {
                let k = choose|k: int|
                    0 <= k < js.drop_last().len() && (#[trigger] js.drop_last()[k]).date == d;
                assert(js[k].date == d);
            }
        }
    }
}

/// Si les dates d'une suite sont deux a deux distinctes, le filtre d'une
/// date presente se reduit a la seule journee qui la porte.
pub proof fn lemme_filtre_distinctes(js: Seq<JourneeVue>, m: int)
    requires
        0 <= m < js.len(),
        forall|i: int, j: int|
            #![trigger js[i], js[j]]
            0 <= i < j < js.len() ==> js[i].date != js[j].date,
    ensures
        filtre_date(js, js[m].date) == seq![js[m]],
    decreases js.len(),
{
    let d = js[m].date;
    if m == js.len() - 1 {
        assert(forall|k: int|
            0 <= k < js.drop_last().len() ==> (#[trigger] js.drop_last()[k]).date != d);
        lemme_filtre_absent(js.drop_last(), d);
        assert(filtre_date(js, d) =~= seq![js[m]]);
    } else {
        assert(js.last().date != d);
        assert(js.drop_last()[m] == js[m]);
        lemme_filtre_distinctes(js.drop_last(), m);
    }
}

/// Trie des journees par date croissante, au sens large, par insertion : une
/// journee nouvelle se place apres toutes celles de date inferieure ou
/// egale, si bien que l'ordre d'entree des journees d'une meme date est
/// conserve — le filtre de chaque date reste inchange.
fn trier_journees(js: &Vec<Journee>) -> (r: Vec<Journee>)
    ensures
        r@.len() == js@.len(),
        triee_large(vues(r@)),
        forall|d: Date| #[trigger] filtre_date(vues(r@), d) == filtre_date(vues(js@), d),
{
    let ghost s = vues(js@);
    let mut triees: Vec<Journee> = Vec::new();
    proof {
        assert(vues(triees@) =~= Seq::<JourneeVue>::empty());
        assert(forall|d: Date| #[trigger] filtre_date(vues(triees@), d) =~= filtre_date(
            s.take(0),
            d,
        ));
    }
    let mut i: usize = 0;
    while i < js.len()
        invariant
            0 <= i <= js@.len(),
            s == vues(js@),
            triees@.len() == i,
            triee_large(vues(triees@)),
            forall|d: Date| #[trigger] filtre_date(vues(triees@), d) == filtre_date(
                s.take(i as int),
                d,
            ),
        decreases js@.len() - i,
    {
        let j = js[i].copier();
        let ghost t = vues(triees@);
        let mut p: usize = triees.len();
        while p > 0 && j.date.avant(&triees[p - 1].date)
            invariant
                0 <= p <= triees@.len(),
                t == vues(triees@),
                j@ == s[i as int],
                forall|k: int| p <= k < t.len() ==> date_avant(j@.date, (#[trigger] t[k]).date),
            decreases p,
        {
            p = p - 1;
        }
        proof {
            assert(p > 0 ==> !date_avant(j@.date, t[p - 1].date));
        }
        let ghost a = t.take(p as int);
        let ghost b = t.skip(p as int);
        let ghost av = triees@;
        triees.insert(p, j);
        proof {
            let nouvelle = vues(triees@);
            av.insert_ensures(p as int, j);
            assert(triees@.len() == t.len() + 1);
            assert forall|k: int| 0 <= k < nouvelle.len() implies nouvelle[k] == (a + seq![s[i as int]]
                + b)[k] by {
                if k < p as int {
                    assert(triees@[k] == av[k]);
                    assert(vues(av)[k] == t[k]);
                } else if k == p as int {
                    assert(triees@[k] == j);
                } else {
                    assert(triees@[k] == av[k - 1]);
                    assert(vues(av)[k - 1] == t[k - 1]);
                }
            }
            assert(nouvelle =~= a + seq![s[i as int]] + b);
            // l'ordre large est conserve autour du point d'insertion
            assert forall|x: int, y: int|
                #![trigger nouvelle[x], nouvelle[y]]
                0 <= x < y < nouvelle.len() implies date_avant_ou_egale(
                nouvelle[x].date,
                nouvelle[y].date,
            ) by {
                assert(forall|k: int| 0 <= k < p ==> t[k] == (#[trigger] nouvelle[k]));
                assert(forall|k: int|
                    p < k < nouvelle.len() ==> t[k - 1] == (#[trigger] nouvelle[k]));
                assert(nouvelle[p as int] == s[i as int]);
                assert(forall|k: int|
                    0 <= k < p ==> date_avant_ou_egale((#[trigger] t[k]).date, s[i as int].date));
            }
            // chaque filtre par date est conserve, la date inseree pres
            let ghost seul = seq![s[i as int]];
            assert(seul.drop_last() =~= Seq::<JourneeVue>::empty());
            assert forall|d: Date| #[trigger] filtre_date(nouvelle, d) == filtre_date(
                s.take(i as int + 1),
                d,
            ) by {
                lemme_filtre_concat(a + seul, b, d);
                lemme_filtre_concat(a, seul, d);
                lemme_filtre_concat(a, b, d);
                assert(a + b =~= t);
                lemme_filtre_prefixe(s, i as int, d);
                assert(seul.len() == 1);
                assert(seul.last() == s[i as int]);
                assert(filtre_date(Seq::<JourneeVue>::empty(), d) == Seq::<JourneeVue>::empty());
                if d == s[i as int].date {
                    assert(forall|k: int| 0 <= k < b.len() ==> (#[trigger] b[k]).date != d);
                    lemme_filtre_absent(b, d);
                    assert(filtre_date(seul, d) =~= Seq::<JourneeVue>::empty().push(s[i as int]));
                    assert(filtre_date(nouvelle, d) =~= filtre_date(t, d).push(s[i as int]));
                } else {
                    assert(filtre_date(seul, d) =~= Seq::<JourneeVue>::empty());
                    assert(filtre_date(nouvelle, d) =~= filtre_date(t, d));
                }
            }
        }
        i = i + 1;
    }
    proof {
        assert(s.take(i as int) =~= s);
    }
    triees
}

/// Ce que garantit le regroupement des journees : `apres` est strictement
/// croissante par date, porte exactement les dates de `avant`, et chacune de
/// ses journees reunit, dans l'ordre d'entree, tous les matchs joues a sa
/// date dans `avant`.
pub open spec fn journees_regroupees(avant: Seq<JourneeVue>, apres: Seq<JourneeVue>) -> bool {
    &&& triee_stricte(apres)
    &&& forall|k: int|
        0 <= k < apres.len() ==> (#[trigger] apres[k]).matchs == matchs_date(avant, apres[k].date)
    &&& forall|k: int|
        0 <= k < apres.len() ==> date_presente(avant, (#[trigger] apres[k]).date)
    &&& forall|m: int| 0 <= m < avant.len() ==> date_presente(apres, (#[trigger] avant[m]).date)
}

/// Un pas de fusion ou la journee franchie porte la meme date que la
/// derniere journee retenue : celle-ci absorbe ses matchs.
proof fn lemme_fusion_meme_date(s: Seq<JourneeVue>, i: int, t: Seq<JourneeVue>, nt: Seq<JourneeVue>)
    requires
        0 <= i < s.len(),
        triee_stricte(t),
        t.len() > 0,
        t.last().date == s[i].date,
        forall|k: int|
            0 <= k < t.len() ==> (#[trigger] t[k]).matchs == matchs_date(s.take(i), t[k].date),
        forall|k: int| 0 <= k < t.len() ==> date_presente(s.take(i), (#[trigger] t[k]).date),
        forall|m: int| 0 <= m < i ==> date_presente(t, (#[trigger] s[m]).date),
        nt == t.drop_last().push(
            JourneeVue { date: s[i].date, matchs: t.last().matchs + s[i].matchs },
        ),
    ensures
        triee_stricte(nt),
        nt.len() == t.len(),
        nt.last().date == s[i].date,
        forall|k: int|
            0 <= k < nt.len() ==> (#[trigger] nt[k]).matchs == matchs_date(s.take(i + 1), nt[k].date),
        forall|k: int|
            0 <= k < nt.len() ==> date_presente(s.take(i + 1), (#[trigger] nt[k]).date),
        forall|m: int| 0 <= m < i + 1 ==> date_presente(nt, (#[trigger] s[m]).date),
{
    let d = s[i].date;
    let n = t.len();
    assert(forall|k: int| 0 <= k < n - 1 ==> (#[trigger] nt[k]) == t[k]);
    assert(nt[n - 1] == JourneeVue { date: d, matchs: t.last().matchs + s[i].matchs });
    assert(nt.last().date == d);
    assert forall|k: int| 0 <= k < nt.len() implies (#[trigger] nt[k]).matchs == matchs_date(
        s.take(i + 1),
        nt[k].date,
    ) by {
        lemme_filtre_prefixe(s, i, nt[k].date);
        if k < n - 1 {
            assert(date_avant(t[k].date, d));
            assert(nt[k].date != d);
        } else {
            assert(t[n - 1].matchs == matchs_date(s.take(i), d));
        }
    }
    assert forall|k: int| 0 <= k < nt.len() implies date_presente(
        s.take(i + 1),
        (#[trigger] nt[k]).date,
    ) by {
        if k < n - 1 {
            let m0 = choose|m0: int|
                0 <= m0 < s.take(i).len() && (#[trigger] s.take(i)[m0]).date == t[k].date;
            assert(s.take(i + 1)[m0].date == nt[k].date);
        } else {
            assert(s.take(i + 1)[i].date == nt[k].date);
        }
    }
    assert forall|m: int| 0 <= m < i + 1 implies date_presente(nt, (#[trigger] s[m]).date) by {
        if m < i {
            let k0 = choose|k0: int| 0 <= k0 < t.len() && (#[trigger] t[k0]).date == s[m].date;
            if k0 < n - 1 {
                assert(nt[k0].date == s[m].date);
            } else {
                assert(nt[n - 1].date == s[m].date);
            }
        } else {
            assert(nt[n - 1].date == s[m].date);
        }
    }
}

/// Un pas de fusion ou la journee franchie porte une date encore jamais
/// vue, strictement posterieure a toutes les dates retenues : elle devient
/// une nouvelle entree.
proof fn lemme_fusion_date_nouvelle(
    s: Seq<JourneeVue>,
    i: int,
    t: Seq<JourneeVue>,
    nt: Seq<JourneeVue>,
)
    requires
        0 <= i < s.len(),
        triee_stricte(t),
        t.len() == 0 ==> i == 0,
        t.len() > 0 ==> i > 0 && t.last().date == s[i - 1].date && date_avant(
            t.last().date,
            s[i].date,
        ),
        forall|k: int|
            0 <= k < t.len() ==> (#[trigger] t[k]).matchs == matchs_date(s.take(i), t[k].date),
        forall|k: int| 0 <= k < t.len() ==> date_presente(s.take(i), (#[trigger] t[k]).date),
        forall|m: int| 0 <= m < i ==> date_presente(t, (#[trigger] s[m]).date),
        nt == t.push(s[i]),
    ensures
        triee_stricte(nt),
        nt.len() == t.len() + 1,
        nt.last().date == s[i].date,
        forall|k: int|
            0 <= k < nt.len() ==> (#[trigger] nt[k]).matchs == matchs_date(s.take(i + 1), nt[k].date),
        forall|k: int|
            0 <= k < nt.len() ==> date_presente(s.take(i + 1), (#[trigger] nt[k]).date),
        forall|m: int| 0 <= m < i + 1 ==> date_presente(nt, (#[trigger] s[m]).date),
{
    let d = s[i].date;
    let n = t.len();
    assert(forall|k: int| 0 <= k < n ==> (#[trigger] nt[k]) == t[k]);
    assert(nt[n as int] == s[i]);
    // aucune journee deja vue ne porte la date d
    assert forall|m: int| 0 <= m < i implies (#[trigger] s[m]).date != d by {
        let k0 = choose|k0: int| 0 <= k0 < t.len() && (#[trigger] t[k0]).date == s[m].date;
        if k0 < n - 1 {
            assert(date_avant(t[k0].date, t.last().date));
        }
        assert(date_avant(s[m].date, d));
    }
    // l'ordre strict est conserve : toute journee retenue precede d
    assert forall|x: int, y: int|
        #![trigger nt[x], nt[y]]
        0 <= x < y < nt.len() implies date_avant(nt[x].date, nt[y].date) by {
        if y == n && x < n - 1 {
            assert(date_avant(t[x].date, t.last().date));
        }
    }
    assert(forall|k: int| 0 <= k < i ==> (#[trigger] s.take(i)[k]).date != d);
    lemme_filtre_absent(s.take(i), d);
    assert forall|k: int| 0 <= k < nt.len() implies (#[trigger] nt[k]).matchs == matchs_date(
        s.take(i + 1),
        nt[k].date,
    ) by {
        lemme_filtre_prefixe(s, i, nt[k].date);
        if k < n {
            assert(date_avant(nt[k].date, d));
            assert(nt[k].date != d);
        } else {
            assert(matchs_date(s.take(i), d) == Seq::<Match>::empty());
            assert(Seq::<Match>::empty() + s[i].matchs =~= s[i].matchs);
        }
    }
    assert forall|k: int| 0 <= k < nt.len() implies date_presente(
        s.take(i + 1),
        (#[trigger] nt[k]).date,
    ) by {
        if k < n {
            let m0 = choose|m0: int|
                0 <= m0 < s.take(i).len() && (#[trigger] s.take(i)[m0]).date == t[k].date;
            assert(s.take(i + 1)[m0].date == nt[k].date);
        } else {
            assert(s.take(i + 1)[i].date == nt[k].date);
        }
    }
    assert forall|m: int| 0 <= m < i + 1 implies date_presente(nt, (#[trigger] s[m]).date) by {
        if m < i {
            let k0 = choose|k0: int| 0 <= k0 < t.len() && (#[trigger] t[k0]).date == s[m].date;
            assert(nt[k0].date == s[m].date);
        } else {
            assert(nt[n as int].date == s[m].date);
        }
    }
}

/// Fusionne une suite de journees deja triee par date : les journees
/// successives d'une meme date sont reunies en une seule, matchs mis bout a
/// bout dans l'ordre.
#[verifier::rlimit(30)]
fn fusionner_journees_triees(triees: &Vec<Journee>) -> (r: Vec<Journee>)
    requires
        triee_large(vues(triees@)),
    ensures
        journees_regroupees(vues(triees@), vues(r@)),
{
    let ghost s = vues(triees@);
    let mut sortie: Vec<Journee> = Vec::new();
    let mut i: usize = 0;
    while i < triees.len()
        invariant
            0 <= i <= triees@.len(),
            s == vues(triees@),
            triee_large(s),
            (i == 0) == (sortie@.len() == 0),
            i > 0 ==> vues(sortie@).last().date == s[i - 1].date,
            triee_stricte(vues(sortie@)),
            forall|k: int|
                0 <= k < sortie@.len() ==> (#[trigger] vues(sortie@)[k]).matchs == matchs_date(
                    s.take(i as int),
                    vues(sortie@)[k].date,
                ),
            forall|k: int|
                0 <= k < sortie@.len() ==> date_presente(
                    s.take(i as int),
                    (#[trigger] vues(sortie@)[k]).date,
                ),
            forall|m: int| 0 <= m < i ==> date_presente(vues(sortie@), (#[trigger] s[m]).date),
        decreases triees@.len() - i,
    {
        let j = triees[i].copier();
        let ghost t = vues(sortie@);
        let garder: bool = if sortie.len() == 0 {
            false
        } else {
            let derniere = &sortie[sortie.len() - 1];
            !derniere.date.avant(&j.date) && !j.date.avant(&derniere.date)
        };
        if garder {
            // meme date que la derniere journee retenue : on les reunit
            let derniere = match sortie.pop() {
                Some(x) => x,
                None => {
                    proof {
                        assert(false);
                    }
                    Journee { date: j.date, matchs: Vec::new() }
                },
            };
            proof {
                assert(derniere@ == t.last());
            }
            let reunie = derniere.ajouter(j);
            let ghost apres_pop = sortie@;
            sortie.push(reunie);
            proof {
                let cible = t.drop_last().push(
                    JourneeVue {
                        date: s[i as int].date,
                        matchs: t.last().matchs + s[i as int].matchs,
                    },
                );
                assert(reunie@ =~= JourneeVue {
                    date: s[i as int].date,
                    matchs: t.last().matchs + s[i as int].matchs,
                });
                assert forall|k: int| 0 <= k < vues(sortie@).len() implies vues(sortie@)[k]
                    == cible[k] by {
                    if k < t.len() - 1 {
                        assert(sortie@[k] == apres_pop[k]);
                        assert(vues(apres_pop)[k] == t[k]);
                        assert(t.drop_last()[k] == t[k]);
                    } else {
                        assert(sortie@[k] == reunie);
                    }
                }
                assert(vues(sortie@) =~= cible);
                lemme_fusion_meme_date(s, i as int, t, vues(sortie@));
            }
        } else {
            // date nouvelle, strictement posterieure : une entree de plus
            proof {
                if t.len() > 0 {
                    assert(date_avant_ou_egale(s[i - 1].date, s[i as int].date));
                    assert(t.last().date != s[i as int].date);
                }
            }
            sortie.push(j);
            proof {
                assert(vues(sortie@) =~= t.push(s[i as int]));
                lemme_fusion_date_nouvelle(s, i as int, t, vues(sortie@));
            }
        }
        i = i + 1;
    }
    proof {
        assert(s.take(i as int) =~= s);
    }
    sortie
}

/// Un regroupement garanti sur la suite triee l'est aussi sur la suite
/// d'origine, puisque le tri conserve le filtre de chaque date.
proof fn lemme_regroupement_transfert(
    avant: Seq<JourneeVue>,
    tri: Seq<JourneeVue>,
    apres: Seq<JourneeVue>,
)
    requires
        forall|d: Date| #[trigger] filtre_date(tri, d) == filtre_date(avant, d),
        journees_regroupees(tri, apres),
    ensures
        journees_regroupees(avant, apres),
{
    assert forall|k: int| 0 <= k < apres.len() implies (#[trigger] apres[k]).matchs == matchs_date(
        avant,
        apres[k].date,
    ) by {
        assert(filtre_date(tri, apres[k].date) == filtre_date(avant, apres[k].date));
    }
    assert forall|k: int| 0 <= k < apres.len() implies date_presente(
        avant,
        (#[trigger] apres[k]).date,
    ) by {
        lemme_filtre_presence(tri, apres[k].date);
        lemme_filtre_presence(avant, apres[k].date);
    }
    assert forall|m: int| 0 <= m < avant.len() implies date_presente(
        apres,
        (#[trigger] avant[m]).date,
    ) by {
        assert(date_presente(avant, avant[m].date));
        lemme_filtre_presence(avant, avant[m].date);
        lemme_filtre_presence(tri, avant[m].date);
        let m1 = choose|m1: int| 0 <= m1 < tri.len() && (#[trigger] tri[m1]).date == avant[m].date;
        assert(date_presente(apres, tri[m1].date));
    }
}

impl Partie {
    /// Regroupe les journees de la partie : les trie par date croissante
    /// puis reunit en une seule les journees d'une meme date, matchs mis
    /// bout a bout dans l'ordre d'entree. Les totaux de la partie ne
    /// changent pas. L'operation aboutit toujours.
    pub fn regrouper_journees(self) -> (r: Option<Partie>)
        ensures
            r is Some,
            r matches Some(q) ==> {
                &&& q@.processed == self@.processed
                &&& q@.num_matchs == self@.num_matchs
                &&& q@.ex == self@.ex
                &&& journees_regroupees(self@.journees, q@.journees)
            },
    {
        let triees = trier_journees(&self.journees);
        let journees = fusionner_journees_triees(&triees);
        proof {
            lemme_regroupement_transfert(vues(self.journees@), vues(triees@), vues(journees@));
        }
        Some(
            Partie {
                processed: self.processed,
                num_matchs: self.num_matchs,
                ex: self.ex,
                journees,
            },
        )
    }
}

/// Regrouper des journees aux dates deux a deux distinctes rend exactement
/// ces journees, meme date et memes matchs chacune, en ordre strictement
/// croissant : seul l'ordre change.
pub proof fn lemme_regroupement_dates_distinctes(avant: Seq<JourneeVue>, apres: Seq<JourneeVue>)
    requires
        journees_regroupees(avant, apres),
        forall|i: int, j: int|
            #![trigger avant[i], avant[j]]
            0 <= i < j < avant.len() ==> avant[i].date != avant[j].date,
    ensures
        triee_stricte(apres),
        forall|k: int| 0 <= k < apres.len() ==> meme_journee_presente(avant, #[trigger] apres[k]),
        forall|m: int| 0 <= m < avant.len() ==> date_presente(apres, (#[trigger] avant[m]).date),
{
    assert forall|k: int| 0 <= k < apres.len() implies meme_journee_presente(
        avant,
        #[trigger] apres[k],
    ) by {
        let m0 = choose|m0: int| 0 <= m0 < avant.len() && (#[trigger] avant[m0]).date == apres[k].date;
        lemme_filtre_distinctes(avant, m0);
        assert(filtre_date(avant, apres[k].date) == seq![avant[m0]]);
        assert(seq![avant[m0]].drop_last() =~= Seq::<JourneeVue>::empty());
        assert(concat_matchs(seq![avant[m0]]) == concat_matchs(seq![avant[m0]].drop_last())
            + avant[m0].matchs);
        assert(concat_matchs(Seq::<JourneeVue>::empty()) == Seq::<Match>::empty());
        assert(Seq::<Match>::empty() + avant[m0].matchs =~= avant[m0].matchs);
        assert(apres[k].matchs == avant[m0].matchs);
        assert(0 <= m0 < avant.len() && avant[m0].date == apres[k].date && avant[m0].matchs
            == apres[k].matchs);
        assert(meme_journee_presente(avant, apres[k]));
    }
}

/// Sommer aucune partie rend l'agregat nul ; sommer une seule partie rend
/// ses totaux inchanges, son compte de matchs traites compris.
pub proof fn lemme_somme_identite(p: PartieVue)
    ensures
        somme_num_matchs(Seq::<PartieVue>::empty()) == 0,
        somme_ex(Seq::<PartieVue>::empty()) == 0,
        concat_journees(Seq::<PartieVue>::empty()) == Seq::<JourneeVue>::empty(),
        somme_num_matchs(seq![p]) == p.num_matchs,
        somme_ex(seq![p]) == p.ex,
        concat_journees(seq![p]) == p.journees,
{
    let s = seq![p];
    assert(s.len() == 1);
    assert(s.last() == p);
    assert(s.drop_last() =~= Seq::<PartieVue>::empty());
    assert(s.drop_last() == Seq::<PartieVue>::empty());
    assert(somme_num_matchs(Seq::<PartieVue>::empty()) == 0);
    assert(somme_num_matchs(s) == somme_num_matchs(s.drop_last()) + p.num_matchs);
    assert(concat_journees(s) == concat_journees(s.drop_last()) + p.journees);
    assert(concat_journees(s) =~= p.journees);
}

} // verus!
