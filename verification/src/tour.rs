//! Rencontres d'equipes et tours d'une poule : une rencontre oppose deux
//! equipes a une date prevue, au sein d'un tour numerote. Le coeur du
//! module regroupe une liste plate de rencontres en tours ordonnes par
//! numero, et lit le numero de tour d'un libelle.

use vstd::prelude::*;

use crate::chaine::{
    est_chiffre, indice_premier, lemme_indice_premier_unique, lire_nombre, tous_chiffres,
    valeur_chiffres,
};
use crate::date::Date;
use crate::vues;

verus! {

/// La rencontre d'une equipe contre une autre.
#[derive(Debug)]
pub struct Rencontre {
    /// le tour de la rencontre
    pub tour: u8,
    /// l'equipe A (receveur)
    pub a: String,
    /// l'equipe B (exterieur)
    pub b: String,
    /// le score de l'equipe A (vide tant qu'il n'est pas connu)
    pub scorea: String,
    /// le score de l'equipe B (vide tant qu'il n'est pas connu)
    pub scoreb: String,
    /// la date prevue de la rencontre
    pub date: Date,
}

/// La valeur mathematique d'une rencontre.
#[verifier::ext_equal]
pub ghost struct RencontreVue {
    pub tour: u8,
    pub a: Seq<char>,
    pub b: Seq<char>,
    pub scorea: Seq<char>,
    pub scoreb: Seq<char>,
    pub date: Date,
}

impl View for Rencontre {
    type V = RencontreVue;

    open spec fn view(&self) -> RencontreVue {
        RencontreVue {
            tour: self.tour,
            a: self.a@,
            b: self.b@,
            scorea: self.scorea@,
            scoreb: self.scoreb@,
            date: self.date,
        }
    }
}

impl Rencontre {
    /// Une copie de la rencontre, de meme valeur.
    pub fn copier(&self) -> (r: Rencontre)
        ensures
            r@ == self@,
    {
        Rencontre {
            tour: self.tour,
            a: self.a.clone(),
            b: self.b.clone(),
            scorea: self.scorea.clone(),
            scoreb: self.scoreb.clone(),
            date: self.date,
        }
    }
}

/// Un ensemble de rencontres.
#[derive(Debug)]
pub struct Rencontres {
    pub rencontres: Vec<Rencontre>,
}

/// Un tour : son numero, la date de la premiere rencontre observee pour ce
/// tour, et ses rencontres dans l'ordre d'entree.
#[derive(Debug)]
pub struct Tour {
    pub numero: u8,
    pub date: Date,
    pub rencontres: Rencontres,
}

impl Tour {
    /// Une copie du tour, de meme valeur.
    pub fn copier(&self) -> (r: Tour)
        ensures
            r.numero == self.numero,
            r.date == self.date,
            vues(r.rencontres.rencontres@) == vues(self.rencontres.rencontres@),
    {
        let mut rencontres: Vec<Rencontre> = Vec::new();
        let mut i: usize = 0;
        while i < self.rencontres.rencontres.len()
            invariant
                0 <= i <= self.rencontres.rencontres@.len(),
                rencontres@.len() == i,
                vues(rencontres@) =~= vues(self.rencontres.rencontres@).take(i as int),
            decreases self.rencontres.rencontres@.len() - i,
        {
            let e = self.rencontres.rencontres[i].copier();
            let ghost avant = rencontres@;
            rencontres.push(e);
            proof {
                assert forall|k: int| 0 <= k < i as int + 1 implies vues(rencontres@)[k] == vues(
                    self.rencontres.rencontres@,
                ).take(i as int + 1)[k] by {
                    if k < i as int {
                        assert(avant.push(e)[k] == avant[k]);
                        assert(vues(avant)[k] == vues(self.rencontres.rencontres@).take(i as int)[k]);
                    } else {
                        assert(avant.push(e)[k] == e);
                    }
                }
                assert(vues(rencontres@) =~= vues(self.rencontres.rencontres@).take(i as int + 1));
            }
            i = i + 1;
        }
        proof {
            assert(vues(rencontres@) =~= vues(self.rencontres.rencontres@));
        }
        Tour { numero: self.numero, date: self.date, rencontres: Rencontres { rencontres } }
    }
}

/// L'indice qui suit le dernier signe degre de la suite, ou zero si elle
/// n'en porte aucun.
pub open spec fn apres_dernier_degre(s: Seq<char>) -> int
    decreases s.len(),
{
    if s.len() == 0 {
        0
    } else if s.last() == '\u{b0}' {
        s.len() as int
    } else {
        apres_dernier_degre(s.drop_last())
    }
}

/// Cet indice reste dans la suite.
pub proof fn lemme_degre_bornes(s: Seq<char>)
    ensures
        0 <= apres_dernier_degre(s) <= s.len(),
    decreases s.len(),
{
    if s.len() > 0 {
        lemme_degre_bornes(s.drop_last());
    }
}

/// Un caractere de plus : le signe degre franchi deplace l'indice juste
/// apres lui, tout autre caractere le laisse.
pub proof fn lemme_degre_prefixe(s: Seq<char>, i: int)
    requires
        0 <= i < s.len(),
    ensures
        s[i] == '\u{b0}' ==> apres_dernier_degre(s.take(i + 1)) == i + 1,
        s[i] != '\u{b0}' ==> apres_dernier_degre(s.take(i + 1)) == apres_dernier_degre(s.take(i)),
{
    assert(s.take(i + 1).drop_last() =~= s.take(i));
    assert(s.take(i + 1).last() == s[i]);
}

/// Le jeton numero d'un libelle de tour : ce qui suit le dernier signe
/// degre, lu jusqu'a la premiere espace.
pub open spec fn jeton_numero(s: Seq<char>) -> Seq<char> {
    let reste = s.skip(apres_dernier_degre(s));
    reste.take(indice_premier(reste, ' '))
}

/// Le numero que porte un libelle de tour : la valeur de son jeton numero
/// si celui-ci est une suite non vide de chiffres qui tient dans le type du
/// numero, rien sinon.
pub open spec fn numero_du_libelle(s: Seq<char>) -> Option<u8> {
    let j = jeton_numero(s);
    if j.len() > 0 && tous_chiffres(j) && valeur_chiffres(j) <= 255 {
        Some(valeur_chiffres(j) as u8)
    } else {
        None
    }
}

/// Extrait le numero de tour d'un libelle de la forme "...N<degre><numero> ..." :
/// la suite de chiffres qui suit le dernier signe degre, lue jusqu'a la
/// premiere espace. Rend None si cette suite est vide, porte autre chose
/// qu'un chiffre, ou ne tient pas dans le type du numero.
pub fn numero_de_tour(libelle: &str) -> (r: Option<u8>)
    ensures
        r == numero_du_libelle(libelle@),
{
    let n = libelle.unicode_len();
    let mut debut: usize = 0;
    let mut i: usize = 0;
    proof {
        assert(libelle@.take(0) =~= Seq::<char>::empty());
    }
    while i < n
        invariant
            0 <= i <= n,
            n == libelle@.len(),
            0 <= debut <= i,
            debut == apres_dernier_degre(libelle@.take(i as int)),
        decreases n - i,
    {
        proof {
            lemme_degre_prefixe(libelle@, i as int);
        }
        if libelle.get_char(i) == '\u{b0}' {
            debut = i + 1;
        }
        i = i + 1;
    }
    proof {
        assert(libelle@.take(n as int) =~= libelle@);
    }
    let mut fin: usize = debut;
    while fin < n && libelle.get_char(fin) != ' '
        invariant
            debut <= fin <= n,
            n == libelle@.len(),
            forall|k: int| debut <= k < fin ==> libelle@[k] != ' ',
        decreases n - fin,
    {
        fin = fin + 1;
    }
    proof {
        let reste = libelle@.skip(debut as int);
        assert(forall|k: int| 0 <= k < reste.len() ==> reste[k] == libelle@[debut + k]);
        lemme_indice_premier_unique(reste, ' ', fin - debut);
        assert(jeton_numero(libelle@) =~= libelle@.subrange(debut as int, fin as int));
    }
    match lire_nombre(libelle, debut, fin, 255) {
        Some(v) => Some(v as u8),
        None => None,
    }
}

/// Les rencontres du tour donne, dans leur ordre d'entree.
pub open spec fn du_tour(rs: Seq<RencontreVue>, n: u8) -> Seq<RencontreVue>
    decreases rs.len(),
{
    if rs.len() == 0 {
        Seq::empty()
    } else if rs.last().tour == n {
        du_tour(rs.drop_last(), n).push(rs.last())
    } else {
        du_tour(rs.drop_last(), n)
    }
}

/// Le tour donne a-t-il au moins une rencontre dans la suite ?
pub open spec fn tour_present(rs: Seq<RencontreVue>, n: u8) -> bool {
    exists|i: int| 0 <= i < rs.len() && (#[trigger] rs[i]).tour == n
}

/// Le nombre de numeros de tour distincts de la suite.
pub open spec fn nb_tours(rs: Seq<RencontreVue>) -> int
    decreases rs.len(),
{
    if rs.len() == 0 {
        0
    } else if tour_present(rs.drop_last(), rs.last().tour) {
        nb_tours(rs.drop_last())
    } else {
        nb_tours(rs.drop_last()) + 1
    }
}

/// Les numeros de tour observes forment-ils exactement la suite pleine
/// 1, 2, ..., jusqu'au nombre de numeros distincts ?
pub open spec fn tours_denses(rs: Seq<RencontreVue>) -> bool {
    nb_tours(rs) <= 255 && forall|n: u8| 1 <= n <= nb_tours(rs) ==> #[trigger] tour_present(rs, n)
}

/// Une rencontre de plus : elle rejoint la suite de son tour et lui seul,
/// le tour devient present, et le compte de tours distincts croit d'une
/// unite si le tour etait encore inconnu.
pub proof fn lemme_tours_prefixe(rs: Seq<RencontreVue>, i: int, n: u8)
    requires
        0 <= i < rs.len(),
    ensures
        rs[i].tour == n ==> du_tour(rs.take(i + 1), n) == du_tour(rs.take(i), n).push(rs[i]),
        rs[i].tour != n ==> du_tour(rs.take(i + 1), n) == du_tour(rs.take(i), n),
        tour_present(rs.take(i + 1), n) == (tour_present(rs.take(i), n) || rs[i].tour == n),
        nb_tours(rs.take(i + 1)) == nb_tours(rs.take(i)) + if tour_present(rs.take(i), rs[i].tour) {
            0int
        } else {
            1int
        },
{
    assert(rs.take(i + 1).drop_last() =~= rs.take(i));
    assert(rs.take(i + 1).last() == rs[i]);
    if tour_present(rs.take(i), n) {
        let k = choose|k: int| 0 <= k < rs.take(i).len() && (#[trigger] rs.take(i)[k]).tour == n;
        assert(rs.take(i + 1)[k].tour == n);
    }
    if rs[i].tour == n {
        assert(rs.take(i + 1)[i].tour == n);
    }
    if tour_present(rs.take(i + 1), n) && rs[i].tour != n {
        let k = choose|k: int|
            0 <= k < rs.take(i + 1).len() && (#[trigger] rs.take(i + 1)[k]).tour == n;
        assert(k < i);
        assert(rs.take(i)[k].tour == n);
    }
}

/// Un tour a des rencontres si et seulement s'il est present.
pub proof fn lemme_du_tour_presence(rs: Seq<RencontreVue>, n: u8)
    ensures
        du_tour(rs, n).len() > 0 <==> tour_present(rs, n),
    decreases rs.len(),
{
    if rs.len() > 0 {
        lemme_du_tour_presence(rs.drop_last(), n);
        if rs.last().tour == n {
            assert(rs[rs.len() - 1].tour == n);
        } else {
            if tour_present(rs, n) {
                let k = choose|k: int| 0 <= k < rs.len() && (#[trigger] rs[k]).tour == n;
                assert(rs.drop_last()[k].tour == n);
            }
            if tour_present(rs.drop_last(), n) {
                let k = choose|k: int|
                    0 <= k < rs.drop_last().len() && (#[trigger] rs.drop_last()[k]).tour == n;
                assert(rs[k].tour == n);
            }
        }
    }
}

/// Regroupe une liste plate de rencontres en tours ordonnes par numero :
/// l'entree k du resultat porte le numero k + 1, la date de la premiere
/// rencontre observee pour ce tour, et toutes les rencontres de ce tour
/// dans l'ordre d'entree. Rend None — la faute attendue — des que les
/// numeros observes ne forment pas exactement la suite pleine 1..nombre de
/// numeros distincts.
pub fn grouper_tours(rencontres: &Rencontres) -> (r: Option<Vec<(u8, Tour)>>)
    ensures
        (r is Some) == tours_denses(vues(rencontres.rencontres@)),
        r matches Some(ts) ==> {
            let rs = vues(rencontres.rencontres@);
            &&& ts@.len() == nb_tours(rs)
            &&& forall|k: int| 0 <= k < ts@.len() ==> (#[trigger] ts@[k]).0 as int == k + 1
            &&& forall|k: int| 0 <= k < ts@.len() ==> (#[trigger] ts@[k]).1.numero as int == k + 1
            &&& forall|k: int|
                0 <= k < ts@.len() ==> vues((#[trigger] ts@[k]).1.rencontres.rencontres@) == du_tour(
                    rs,
                    ts@[k].1.numero,
                )
            &&& forall|k: int|
                0 <= k < ts@.len() ==> du_tour(rs, (#[trigger] ts@[k]).1.numero).len() > 0
                    && ts@[k].1.date == du_tour(rs, ts@[k].1.numero)[0].date
        },
{
    let ghost rs = vues(rencontres.rencontres@);
    let mut tours: Vec<Tour> = Vec::new();
    proof {
        assert(rs.take(0) =~= Seq::<RencontreVue>::empty());
    }
    let mut i: usize = 0;
    while i < rencontres.rencontres.len()
        invariant
            0 <= i <= rencontres.rencontres@.len(),
            rs == vues(rencontres.rencontres@),
            tours@.len() == nb_tours(rs.take(i as int)),
            forall|k1: int, k2: int|
                #![trigger tours@[k1], tours@[k2]]
                0 <= k1 < k2 < tours@.len() ==> tours@[k1].numero != tours@[k2].numero,
            forall|k: int|
                0 <= k < tours@.len() ==> du_tour(rs.take(i as int), (#[trigger] tours@[k]).numero).len()
                    > 0,
            forall|k: int|
                0 <= k < tours@.len() ==> vues((#[trigger] tours@[k]).rencontres.rencontres@)
                    == du_tour(rs.take(i as int), tours@[k].numero),
            forall|k: int|
                0 <= k < tours@.len() ==> (#[trigger] tours@[k]).date == du_tour(
                    rs.take(i as int),
                    tours@[k].numero,
                )[0].date,
            forall|n: u8|
                tour_present(rs.take(i as int), n) <==> exists|k: int|
                    0 <= k < tours@.len() && (#[trigger] tours@[k]).numero == n,
        decreases rencontres.rencontres@.len() - i,
    {
        let courante = &rencontres.rencontres[i];
        proof {
            assert(rs[i as int] == courante@);
            lemme_tours_prefixe(rs, i as int, courante@.tour);
        }
        let mut trouve: Option<usize> = None;
        let mut k: usize = 0;
        while k < tours.len()
            invariant
                0 <= k <= tours@.len(),
                trouve matches Some(idx) ==> idx < tours@.len() && tours@[idx as int].numero
                    == courante.tour,
                trouve is None ==> forall|m: int|
                    0 <= m < k ==> (#[trigger] tours@[m]).numero != courante.tour,
            decreases tours@.len() - k,
        {
            if trouve.is_none() && tours[k].numero == courante.tour {
                trouve = Some(k);
            }
            k = k + 1;
        }
        let ghost anciens = tours@;
        let ghost numero_courant = courante@.tour;
        match trouve {
            Some(idx) => {
                proof {
                    assert(tour_present(rs.take(i as int), numero_courant));
                }
                let mut t = tours.remove(idx);
                let ghost ancien_tour = anciens[idx as int];
                t.rencontres.rencontres.push(courante.copier());
                let ghost t_vue = vues(t.rencontres.rencontres@);
                proof {
                    assert forall|m: int| 0 <= m < t_vue.len() implies t_vue[m] == du_tour(
                        rs.take(i as int + 1),
                        numero_courant,
                    )[m] by {
                        let avant_vue = vues(ancien_tour.rencontres.rencontres@);
                        if m < t_vue.len() - 1 {
                            assert(t.rencontres.rencontres@[m]
                                == ancien_tour.rencontres.rencontres@[m]);
                            assert(avant_vue[m] == du_tour(rs.take(i as int), numero_courant)[m]);
                        } else {
                            assert(t.rencontres.rencontres@[m] == t.rencontres.rencontres@.last());
                        }
                    }
                    assert(t_vue =~= du_tour(rs.take(i as int + 1), numero_courant));
                }
                let ghost t_fini = t;
                tours.push(t);
                proof {
                    let nouveaux = tours@;
                    let pre = rs.take(i as int);
                    let pre1 = rs.take(i as int + 1);
                    // chaque entree d'avant se retrouve, le tour modifie en queue
                    assert(nouveaux.len() == anciens.len());
                    assert(forall|m: int|
                        0 <= m < idx as int ==> (#[trigger] nouveaux[m]) == anciens[m]);
                    assert(forall|m: int|
                        idx as int <= m < nouveaux.len() - 1 ==> (#[trigger] nouveaux[m])
                            == anciens[m + 1]);
                    assert(nouveaux.last() == t_fini);
                    assert(t_fini.numero == numero_courant);
                    assert(t_fini.date == ancien_tour.date);
                    assert(vues(t_fini.rencontres.rencontres@) == du_tour(pre1, numero_courant));
                    assert forall|k2: int| 0 <= k2 < nouveaux.len() implies {
                        &&& du_tour(pre1, (#[trigger] nouveaux[k2]).numero).len() > 0
                        &&& vues(nouveaux[k2].rencontres.rencontres@) == du_tour(
                            pre1,
                            nouveaux[k2].numero,
                        )
                        &&& nouveaux[k2].date == du_tour(pre1, nouveaux[k2].numero)[0].date
                    } by {
                        lemme_tours_prefixe(rs, i as int, nouveaux[k2].numero);
                        if k2 == nouveaux.len() - 1 {
                            let avant_tour = du_tour(pre, numero_courant);
                            assert(avant_tour.len() > 0);
                            assert(avant_tour.push(rs[i as int])[0] == avant_tour[0]);
                        }
                    }
                    assert forall|nn: u8| tour_present(pre1, nn) implies exists|k2: int|
                        0 <= k2 < nouveaux.len() && (#[trigger] nouveaux[k2]).numero == nn by {
                        lemme_tours_prefixe(rs, i as int, nn);
                        if nn == numero_courant {
                            assert(nouveaux[nouveaux.len() - 1].numero == nn);
                        } else {
                            let k0 = choose|k0: int|
                                0 <= k0 < anciens.len() && (#[trigger] anciens[k0]).numero == nn;
                            if k0 < idx as int {
                                assert(nouveaux[k0].numero == nn);
                            } else if k0 == idx as int {
                                assert(anciens[k0].numero == numero_courant);
                            } else {
                                assert(nouveaux[k0 - 1].numero == nn);
                            }
                        }
                    }
                    assert forall|nn: u8|
                        (exists|k2: int|
                            0 <= k2 < nouveaux.len() && (#[trigger] nouveaux[k2]).numero
                                == nn) implies tour_present(pre1, nn) by {
                        lemme_tours_prefixe(rs, i as int, nn);
                        let k2 = choose|k2: int|
                            0 <= k2 < nouveaux.len() && (#[trigger] nouveaux[k2]).numero == nn;
                        if k2 == nouveaux.len() - 1 {
                            assert(nn == numero_courant);
                        } else if k2 < idx as int {
                            assert(anciens[k2].numero == nn);
                        } else {
                            assert(anciens[k2 + 1].numero == nn);
                        }
                    }
                    assert forall|k1: int, k2: int|
                        #![trigger nouveaux[k1], nouveaux[k2]]
                        0 <= k1 < k2 < nouveaux.len() implies nouveaux[k1].numero
                        != nouveaux[k2].numero by {
                        if k2 == nouveaux.len() - 1 {
                            if k1 < idx as int {
                                assert(anciens[k1].numero != anciens[idx as int].numero);
                            } else {
                                assert(anciens[k1 + 1].numero != anciens[idx as int].numero);
                            }
                        }
                    }
                    assert(nb_tours(pre1) == nb_tours(pre));
                }
            },
            None => {
                proof {
                    assert(!tour_present(rs.take(i as int), numero_courant)) by {
                        if tour_present(rs.take(i as int), numero_courant) {
                            let k0 = choose|k0: int|
                                0 <= k0 < tours@.len() && (#[trigger] tours@[k0]).numero
                                    == numero_courant;
                            assert(tours@[k0].numero != courante.tour);
                        }
                    }
                    lemme_du_tour_presence(rs.take(i as int), numero_courant);
                    assert(du_tour(rs.take(i as int), numero_courant) =~= Seq::<
                        RencontreVue,
                    >::empty());
                }
                let mut seules: Vec<Rencontre> = Vec::new();
                seules.push(courante.copier());
                proof {
                    assert(vues(seules@) =~= Seq::<RencontreVue>::empty().push(rs[i as int]));
                    assert(vues(seules@) =~= du_tour(rs.take(i as int + 1), numero_courant));
                }
                tours.push(
                    Tour {
                        numero: courante.tour,
                        date: courante.date,
                        rencontres: Rencontres { rencontres: seules },
                    },
                );
                proof {
                    let nouveaux = tours@;
                    let pre = rs.take(i as int);
                    let pre1 = rs.take(i as int + 1);
                    assert(nouveaux.len() == anciens.len() + 1);
                    assert(forall|m: int|
                        0 <= m < anciens.len() ==> (#[trigger] nouveaux[m]) == anciens[m]);
                    assert(nouveaux.last().numero == numero_courant);
                    assert(du_tour(pre1, numero_courant) =~= Seq::<RencontreVue>::empty().push(
                        rs[i as int],
                    ));
                    assert(du_tour(pre1, numero_courant)[0] == rs[i as int]);
                    assert forall|k2: int| 0 <= k2 < nouveaux.len() implies {
                        &&& du_tour(pre1, (#[trigger] nouveaux[k2]).numero).len() > 0
                        &&& vues(nouveaux[k2].rencontres.rencontres@) == du_tour(
                            pre1,
                            nouveaux[k2].numero,
                        )
                        &&& nouveaux[k2].date == du_tour(pre1, nouveaux[k2].numero)[0].date
                    } by {
                        lemme_tours_prefixe(rs, i as int, nouveaux[k2].numero);
                        if k2 < nouveaux.len() - 1 {
                            // un tour deja vu porte un autre numero que la rencontre franchie
                            if nouveaux[k2].numero == numero_courant {
                                assert(tour_present(pre, numero_courant));
                            }
                        }
                    }
                    assert forall|nn: u8| tour_present(pre1, nn) implies exists|k2: int|
                        0 <= k2 < nouveaux.len() && (#[trigger] nouveaux[k2]).numero == nn by {
                        lemme_tours_prefixe(rs, i as int, nn);
                        if nn == numero_courant {
                            assert(nouveaux[nouveaux.len() - 1].numero == nn);
                        } else {
                            let k0 = choose|k0: int|
                                0 <= k0 < anciens.len() && (#[trigger] anciens[k0]).numero == nn;
                            assert(nouveaux[k0].numero == nn);
                        }
                    }
                    assert forall|nn: u8|
                        (exists|k2: int|
                            0 <= k2 < nouveaux.len() && (#[trigger] nouveaux[k2]).numero
                                == nn) implies tour_present(pre1, nn) by {
                        lemme_tours_prefixe(rs, i as int, nn);
                        let k2 = choose|k2: int|
                            0 <= k2 < nouveaux.len() && (#[trigger] nouveaux[k2]).numero == nn;
                        if k2 < nouveaux.len() - 1 {
                            assert(anciens[k2].numero == nn);
                        }
                    }
                    assert forall|k1: int, k2: int|
                        #![trigger nouveaux[k1], nouveaux[k2]]
                        0 <= k1 < k2 < nouveaux.len() implies nouveaux[k1].numero
                        != nouveaux[k2].numero by {
                        if k2 == nouveaux.len() - 1 && nouveaux[k1].numero == numero_courant {
                            assert(anciens[k1].numero == numero_courant);
                            assert(tour_present(pre, numero_courant));
                        }
                    }
                    assert(nb_tours(pre1) == nb_tours(pre) + 1);
                }
            },
        }
        i = i + 1;
    }
    proof {
        assert(rs.take(rencontres.rencontres@.len() as int) =~= rs);
    }
    if tours.len() > 255 {
        proof {
            assert(nb_tours(rs) == tours@.len());
            assert(!tours_denses(rs));
        }
        return None;
    }
    let nb = tours.len();
    let mut ts: Vec<(u8, Tour)> = Vec::new();
    let mut n: usize = 1;
    while n <= nb
        invariant
            1 <= n <= nb + 1,
            rs == vues(rencontres.rencontres@),
            nb == tours@.len() <= 255,
            nb == nb_tours(rs),
            forall|k1: int, k2: int|
                #![trigger tours@[k1], tours@[k2]]
                0 <= k1 < k2 < tours@.len() ==> tours@[k1].numero != tours@[k2].numero,
            forall|k: int|
                0 <= k < tours@.len() ==> du_tour(rs, (#[trigger] tours@[k]).numero).len() > 0,
            forall|k: int|
                0 <= k < tours@.len() ==> vues((#[trigger] tours@[k]).rencontres.rencontres@)
                    == du_tour(rs, tours@[k].numero),
            forall|k: int|
                0 <= k < tours@.len() ==> (#[trigger] tours@[k]).date == du_tour(
                    rs,
                    tours@[k].numero,
                )[0].date,
            forall|m: u8|
                tour_present(rs, m) <==> exists|k: int|
                    0 <= k < tours@.len() && (#[trigger] tours@[k]).numero == m,
            ts@.len() == n - 1,
            forall|k: int| 0 <= k < ts@.len() ==> (#[trigger] ts@[k]).0 as int == k + 1,
            forall|k: int| 0 <= k < ts@.len() ==> (#[trigger] ts@[k]).1.numero as int == k + 1,
            forall|k: int|
                0 <= k < ts@.len() ==> vues((#[trigger] ts@[k]).1.rencontres.rencontres@) == du_tour(
                    rs,
                    ts@[k].1.numero,
                ),
            forall|k: int|
                0 <= k < ts@.len() ==> du_tour(rs, (#[trigger] ts@[k]).1.numero).len() > 0
                    && ts@[k].1.date == du_tour(rs, ts@[k].1.numero)[0].date,
            forall|m: u8| 1 <= m < n ==> #[trigger] tour_present(rs, m),
        decreases nb + 1 - n,
    {
        let mut trouve: Option<usize> = None;
        let mut k: usize = 0;
        while k < tours.len()
            invariant
                0 <= k <= tours@.len(),
                n <= 255,
                trouve matches Some(idx) ==> idx < tours@.len() && tours@[idx as int].numero as int
                    == n,
                trouve is None ==> forall|m: int|
                    0 <= m < k ==> (#[trigger] tours@[m]).numero as int != n,
            decreases tours@.len() - k,
        {
            if trouve.is_none() && tours[k].numero as usize == n {
                trouve = Some(k);
            }
            k = k + 1;
        }
        match trouve {
            Some(idx) => {
                let t = tours[idx].copier();
                let ghost anciens_ts = ts@;
                let ghost t_vue = vues(t.rencontres.rencontres@);
                let ghost t_date = t.date;
                let ghost t_numero = t.numero;
                ts.push((n as u8, t));
                proof {
                    assert(tours@[idx as int].numero as int == n);
                    assert((n as u8) as int == n);
                    assert(t_numero == tours@[idx as int].numero);
                    assert(t_vue == du_tour(rs, n as u8));
                    assert(du_tour(rs, n as u8).len() > 0);
                    assert(t_date == du_tour(rs, n as u8)[0].date);
                    assert(ts@.len() == anciens_ts.len() + 1);
                    assert(forall|k: int|
                        0 <= k < anciens_ts.len() ==> (#[trigger] ts@[k]) == anciens_ts[k]);
                    assert(ts@[ts@.len() - 1].0 == n as u8);
                    assert(ts@[ts@.len() - 1].1.numero == t_numero);
                    assert(vues(ts@[ts@.len() - 1].1.rencontres.rencontres@) == t_vue);
                    assert(ts@[ts@.len() - 1].1.date == t_date);
                    assert(ts@[ts@.len() - 1].1.numero == n as u8);
                    assert(du_tour(rs, ts@[ts@.len() - 1].1.numero).len() > 0);
                    assert(ts@[ts@.len() - 1].1.date == du_tour(
                        rs,
                        ts@[ts@.len() - 1].1.numero,
                    )[0].date);
                    assert(vues(ts@[ts@.len() - 1].1.rencontres.rencontres@) == du_tour(
                        rs,
                        ts@[ts@.len() - 1].1.numero,
                    ));
                    assert(tour_present(rs, n as u8)) by {
                        assert(tours@[idx as int].numero == n as u8);
                    }
                }
            },
            None => {
                proof {
                    assert(!tour_present(rs, n as u8)) by {
                        if tour_present(rs, n as u8) {
                            let k0 = choose|k0: int|
                                0 <= k0 < tours@.len() && (#[trigger] tours@[k0]).numero == n as u8;
                            assert(tours@[k0].numero as int != n);
                        }
                    }
                    assert((n as u8) as int == n);
                    assert(1 <= n as u8 <= nb_tours(rs));
                    assert(!tours_denses(rs)) by {
                        if tours_denses(rs) {
                            assert(tour_present(rs, n as u8));
                        }
                    }
                    assert(!tours_denses(vues(rencontres.rencontres@)));
                }
                return None;
            },
        }
        n = n + 1;
    }
    proof {
        assert(ts@.len() == nb_tours(rs));
        assert(tours_denses(rs)) by {
            assert forall|nn: u8| 1 <= nn <= nb_tours(rs) implies tour_present(rs, nn) by {
                assert(nn < n);
            }
        }
        assert(tours_denses(vues(rencontres.rencontres@)));
        assert(nb_tours(vues(rencontres.rencontres@)) == nb_tours(rs));
    }
    Some(ts)
}

} // verus!
