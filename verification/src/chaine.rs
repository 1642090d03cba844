//! Lecture de texte : chiffres decimaux, premiere occurrence d'un
//! caractere, et lecture d'un nombre ecrit dans une tranche d'une chaine.

use vstd::prelude::*;

verus! {

/// Le caractere est-il un chiffre decimal ?
pub open spec fn est_chiffre(c: char) -> bool {
    '0' <= c && c <= '9'
}

/// La valeur d'un chiffre decimal.
pub open spec fn valeur_chiffre(c: char) -> int {
    c as int - '0' as int
}

/// Tous les caracteres de la suite sont-ils des chiffres ?
pub open spec fn tous_chiffres(s: Seq<char>) -> bool {
    forall|k: int| 0 <= k < s.len() ==> est_chiffre(#[trigger] s[k])
}

/// La valeur du nombre que la suite ecrit en chiffres decimaux, le chiffre
/// de poids fort en tete ; zero pour la suite vide.
pub open spec fn valeur_chiffres(s: Seq<char>) -> int
    decreases s.len(),
{
    if s.len() == 0 {
        0
    } else {
        valeur_chiffres(s.drop_last()) * 10 + valeur_chiffre(s.last())
    }
}

/// Lire un chiffre de plus multiplie la valeur par dix et l'ajoute.
pub proof fn lemme_valeur_prefixe(s: Seq<char>, i: int)
    requires
        0 <= i < s.len(),
    ensures
        valeur_chiffres(s.take(i + 1)) == valeur_chiffres(s.take(i)) * 10 + valeur_chiffre(s[i]),
{
    assert(s.take(i + 1).drop_last() =~= s.take(i));
    assert(s.take(i + 1).last() == s[i]);
}

/// La valeur d'une suite de chiffres est positive.
pub proof fn lemme_valeur_positive(s: Seq<char>)
    requires
        tous_chiffres(s),
    ensures
        0 <= valeur_chiffres(s),
    decreases s.len(),
{
    if s.len() > 0 {
        assert(tous_chiffres(s.drop_last()));
        lemme_valeur_positive(s.drop_last());
        assert(est_chiffre(s.last()));
    }
}

/// La valeur d'un prefixe d'une suite de chiffres ne depasse pas la valeur
/// de la suite entiere.
pub proof fn lemme_valeur_monotone(s: Seq<char>, i: int)
    requires
        0 <= i <= s.len(),
        tous_chiffres(s),
    ensures
        valeur_chiffres(s.take(i)) <= valeur_chiffres(s),
    decreases s.len() - i,
{
    if i == s.len() {
        assert(s.take(i) =~= s);
    } else {
        assert(tous_chiffres(s.take(i)));
        lemme_valeur_positive(s.take(i));
        lemme_valeur_prefixe(s, i);
        assert(est_chiffre(s[i]));
        lemme_valeur_monotone(s, i + 1);
    }
}

/// L'indice de la premiere occurrence du caractere, ou la longueur de la
/// suite s'il n'y figure pas.
pub open spec fn indice_premier(s: Seq<char>, c: char) -> int
    decreases s.len(),
{
    if s.len() == 0 {
        0
    } else if s[0] == c {
        0
    } else {
        1 + indice_premier(s.skip(1), c)
    }
}

/// Ce que vaut la premiere occurrence : rien avant elle, elle au plus tot.
pub proof fn lemme_indice_premier(s: Seq<char>, c: char)
    ensures
        0 <= indice_premier(s, c) <= s.len(),
        indice_premier(s, c) < s.len() ==> s[indice_premier(s, c)] == c,
        forall|k: int| 0 <= k < indice_premier(s, c) ==> s[k] != c,
    decreases s.len(),
{
    if s.len() > 0 && s[0] != c {
        lemme_indice_premier(s.skip(1), c);
        assert forall|k: int| 0 <= k < indice_premier(s, c) implies s[k] != c by {
            if k > 0 {
                assert(s.skip(1)[k - 1] != c);
                assert(s.skip(1)[k - 1] == s[k]);
            }
        }
    }
}

/// Un indice sans occurrence avant lui, et qui porte le caractere ou clot
/// la suite, est la premiere occurrence.
pub proof fn lemme_indice_premier_unique(s: Seq<char>, c: char, t: int)
    requires
        0 <= t <= s.len(),
        forall|k: int| 0 <= k < t ==> s[k] != c,
        t == s.len() || s[t] == c,
    ensures
        indice_premier(s, c) == t,
{
    lemme_indice_premier(s, c);
    let i = indice_premier(s, c);
    if i < t {
        assert(s[i] != c);
    }
    if t < i {
        assert(s[t] != c);
    }
}

/// L'indice qui suit la derniere occurrence du caractere, ou zero s'il ne
/// figure pas dans la suite.
pub open spec fn apres_dernier(s: Seq<char>, c: char) -> int
    decreases s.len(),
{
    if s.len() == 0 {
        0
    } else if s.last() == c {
        s.len() as int
    } else {
        apres_dernier(s.drop_last(), c)
    }
}

/// Cet indice reste dans la suite.
pub proof fn lemme_apres_dernier_bornes(s: Seq<char>, c: char)
    ensures
        0 <= apres_dernier(s, c) <= s.len(),
    decreases s.len(),
{
    if s.len() > 0 {
        lemme_apres_dernier_bornes(s.drop_last(), c);
    }
}

/// Un caractere de plus : l'occurrence franchie deplace l'indice juste
/// apres elle, tout autre caractere le laisse.
pub proof fn lemme_apres_dernier_prefixe(s: Seq<char>, c: char, i: int)
    requires
        0 <= i < s.len(),
    ensures
        s[i] == c ==> apres_dernier(s.take(i + 1), c) == i + 1,
        s[i] != c ==> apres_dernier(s.take(i + 1), c) == apres_dernier(s.take(i), c),
{
    assert(s.take(i + 1).drop_last() =~= s.take(i));
    assert(s.take(i + 1).last() == s[i]);
}

/// L'ordre lexicographique strict sur des suites de caracteres : la
/// premiere difference decide, un prefixe propre vient avant.
pub open spec fn lex_inferieure(a: Seq<char>, b: Seq<char>) -> bool
    decreases a.len() + b.len(),
{
    if b.len() == 0 {
        false
    } else if a.len() == 0 {
        true
    } else if a[0] != b[0] {
        a[0] < b[0]
    } else {
        lex_inferieure(a.skip(1), b.skip(1))
    }
}

/// Compare deux textes suivant l'ordre lexicographique de leurs caracteres.
pub fn texte_inferieur(a: &str, b: &str) -> (r: bool)
    ensures
        r == lex_inferieure(a@, b@),
{
    let na = a.unicode_len();
    let nb = b.unicode_len();
    proof {
        assert(a@.skip(0) =~= a@);
        assert(b@.skip(0) =~= b@);
    }
    let mut i: usize = 0;
    while i < na && i < nb
        invariant
            0 <= i <= na,
            0 <= i <= nb,
            na == a@.len(),
            nb == b@.len(),
            lex_inferieure(a@, b@) == lex_inferieure(a@.skip(i as int), b@.skip(i as int)),
        decreases na - i,
    {
        let ca = a.get_char(i);
        let cb = b.get_char(i);
        proof {
            assert(a@.skip(i as int)[0] == a@[i as int]);
            assert(b@.skip(i as int)[0] == b@[i as int]);
            assert(a@.skip(i as int).skip(1) =~= a@.skip(i as int + 1));
            assert(b@.skip(i as int).skip(1) =~= b@.skip(i as int + 1));
        }
        if ca != cb {
            return ca < cb;
        }
        i = i + 1;
    }
    proof {
        if i == na {
            assert(a@.skip(i as int).len() == 0);
        } else {
            assert(b@.skip(i as int).len() == 0);
        }
    }
    na < nb
}

/// Lit le nombre ecrit entre les deux indices : la valeur de la tranche si
/// elle est une suite non vide de chiffres dont la valeur tient sous le
/// plafond, rien sinon.
pub fn lire_nombre(s: &str, de: usize, a: usize, plafond: u32) -> (r: Option<u32>)
    requires
        de <= a <= s@.len(),
        plafond <= 65535,
    ensures
        r matches Some(v) ==> {
            let t = s@.subrange(de as int, a as int);
            &&& t.len() > 0
            &&& tous_chiffres(t)
            &&& valeur_chiffres(t) == v
            &&& v <= plafond
        },
        r is None ==> {
            let t = s@.subrange(de as int, a as int);
            !(t.len() > 0 && tous_chiffres(t) && valeur_chiffres(t) <= plafond)
        },
{
    let ghost t = s@.subrange(de as int, a as int);
    if de == a {
        proof {
            assert(t.len() == 0);
        }
        return None;
    }
    let mut valeur: u32 = 0;
    let mut m: usize = de;
    while m < a
        invariant
            de <= m <= a <= s@.len(),
            t == s@.subrange(de as int, a as int),
            plafond <= 65535,
            valeur <= plafond,
            tous_chiffres(t.take(m - de)),
            valeur == valeur_chiffres(t.take(m - de)),
        decreases a - m,
    {
        let c = s.get_char(m);
        proof {
            assert(t[m - de] == s@[m as int]);
        }
        if !('0' <= c && c <= '9') {
            proof {
                assert(!est_chiffre(t[m - de]));
            }
            return None;
        }
        let d = c as u32 - '0' as u32;
        proof {
            assert(est_chiffre(t[m - de]));
            assert(d == valeur_chiffre(t[m - de]));
            lemme_valeur_prefixe(t, m - de);
        }
        if valeur > plafond / 10 || valeur * 10 + d > plafond {
            proof {
                if tous_chiffres(t) {
                    assert(valeur * 10 + d > plafond);
                    lemme_valeur_monotone(t, m - de + 1);
                }
            }
            return None;
        }
        valeur = valeur * 10 + d;
        m = m + 1;
    }
    proof {
        assert(t.take(a - de) =~= t);
    }
    Some(valeur)
}

} // verus!
