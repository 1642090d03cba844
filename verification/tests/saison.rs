use libfftt::club::Club;
use libfftt::date::Date;
use libfftt::equipe::analyser_lien_poule;
use libfftt::joueur::Joueur;
use libfftt::journee::{Journee, Match};
use libfftt::partie::Partie;
use libfftt::tour::{grouper_tours, numero_de_tour, Rencontre, Rencontres};
use std::time::Instant;

#[test]
fn test_phase2() {
    let d = Date::new(2023, 1, 1);
    assert!(!d.phase2());
    let d = Date::new(2023, 1, 11);
    assert!(d.phase2());
    let d = Date::new(2023, 1, 15);
    assert!(d.phase2());
    let d = Date::new(2023, 9, 1);
    assert!(!d.phase2());
    let d = Date::new(2023, 9, 11);
    assert!(!d.phase2());
    let d = Date::new(2023, 9, 30);
    assert!(!d.phase2());
    let d = Date::new(2024, 2, 1);
    assert!(d.phase2());
    let d = Date::new(2024, 2, 10);
    assert!(d.phase2());
    let d = Date::new(2024, 2, 15);
    assert!(d.phase2());
    let d = Date::new(2024, 3, 1);
    assert!(d.phase2());
    let d = Date::new(2024, 8, 31);
    assert!(d.phase2());
    let d = Date::new(2024, 9, 10);
    assert!(!d.phase2());
    let d = Date::new(2024, 9, 11);
    assert!(!d.phase2());
}

#[test]
fn test_order() {
    let d_1 = Date::new(2023, 1, 1);
    let d_2 = Date::new(2023, 1, 2);
    assert!(d_1 < d_2);
    let d_1 = Date::new(2022, 1, 2);
    let d_2 = Date::new(2023, 1, 1);
    assert!(d_1 < d_2);
    let d_1 = Date::new(2023, 1, 1);
    let d_2 = Date::new(2023, 1, 1);
    assert!(d_1 == d_2);
    let d_1 = Date::new(2023, 1, 1);
    let d_2 = Date::new(2022, 12, 31);
    assert!(d_1 > d_2);
}

#[test]
fn bornes_de_phase() {
    assert!(!Date::new(2024, 1, 10).phase2());
    assert!(Date::new(2024, 1, 11).phase2());
    assert!(Date::new(2024, 8, 31).phase2());
    assert!(!Date::new(2024, 9, 1).phase2());
    assert!(!Date::new(2023, 12, 31).phase2());
}

#[test]
fn egalite_des_journees_par_date_seule() {
    let j1 = Journee { date: Date::new(2024, 3, 2), matchs: vec![Match { ex: 400 }] };
    let j2 = Journee {
        date: Date::new(2024, 3, 2),
        matchs: vec![Match { ex: -500 }, Match { ex: 100 }],
    };
    assert!(j1 == j2);
    assert!(!(j1 < j2));
    assert!(!(j1 > j2));
}

#[test]
fn saison_d_une_journee() {
    let j = Journee { date: Date::new(2023, 10, 5), matchs: vec![] };
    assert!(j.est_saison(2023));
    assert!(!j.est_saison(2022));
    let j = Journee { date: Date::new(2024, 3, 5), matchs: vec![] };
    assert!(j.est_saison(2023));
    assert!(!j.est_saison(2024));
}

#[test]
fn points_d_une_journee() {
    let j = Journee { date: Date::new(2024, 3, 2), matchs: vec![] };
    assert_eq!(j.ex(), 0);
    let j = Journee {
        date: Date::new(2024, 3, 2),
        matchs: vec![Match { ex: 400 }, Match { ex: -500 }],
    };
    assert_eq!(j.ex(), -100);
}

#[test]
fn somme_sans_partie_et_d_une_partie() {
    let zero = Partie::sum_parties(&[]);
    assert_eq!(zero.processed, 0);
    assert_eq!(zero.num_matchs, 0);
    assert_eq!(zero.ex, 0);
    assert!(zero.journees.is_empty());

    let p = Partie {
        processed: 3,
        num_matchs: 2,
        ex: 500,
        journees: vec![Journee { date: Date::new(2024, 3, 2), matchs: vec![Match { ex: 500 }] }],
    };
    let s = Partie::sum_parties(&[p]);
    assert_eq!(s.processed, 3);
    assert_eq!(s.num_matchs, 2);
    assert_eq!(s.ex, 500);
    assert_eq!(s.journees.len(), 1);
}

#[test]
fn somme_de_deux_parties() {
    let p1 = Partie {
        processed: 1,
        num_matchs: 2,
        ex: 500,
        journees: vec![Journee { date: Date::new(2024, 3, 2), matchs: vec![Match { ex: 500 }] }],
    };
    let p2 = Partie {
        processed: 7,
        num_matchs: 1,
        ex: 300,
        journees: vec![Journee { date: Date::new(2024, 3, 9), matchs: vec![Match { ex: 300 }] }],
    };
    let s = Partie::sum_parties(&[p1, p2]);
    // le compte de matchs traites vient de la premiere partie seule
    assert_eq!(s.processed, 1);
    assert_eq!(s.num_matchs, 3);
    assert_eq!(s.ex, 800);
    assert_eq!(s.journees.len(), 2);
}

#[test]
fn numero_d_un_libelle_de_tour() {
    assert_eq!(numero_de_tour("Poule A phase 1 tour N\u{b0}3 xyz"), Some(3));
    assert_eq!(numero_de_tour("N\u{b0}12 suite"), Some(12));
    assert_eq!(numero_de_tour("sans signe 7"), None);
    assert_eq!(numero_de_tour("N\u{b0} 3"), None);
    assert_eq!(numero_de_tour("N\u{b0}abc"), None);
    assert_eq!(numero_de_tour("N\u{b0}300"), None);
    assert_eq!(numero_de_tour("N\u{b0}255"), Some(255));
}

#[test]
fn bench_order() {
    let d_1 = Date::new(2023, 1, 1);
    let d_2 = Date::new(2023, 1, 31);
    let before = Instant::now();
    for _ in 1..1_000 {
        assert!(d_1 < d_2);
    }
    println!("Elapsed time: {:.2?}", before.elapsed());
}

#[test]
fn regroupement_dates_dupliquees() {
    // deux journees a la meme date : une seule journee en sort, qui garde
    // les deux matchs dans l'ordre, et dont le total vaut la somme
    let d = Date::new(2024, 11, 29);
    let p = Partie {
        processed: 1,
        num_matchs: 2,
        ex: -100,
        journees: vec![
            Journee { date: d, matchs: vec![Match { ex: 400 }] },
            Journee { date: d, matchs: vec![Match { ex: -500 }] },
        ],
    };
    let q = p.regrouper_journees().unwrap();
    assert_eq!(q.journees.len(), 1);
    assert!(q.journees[0].date == d);
    assert_eq!(q.journees[0].matchs.len(), 2);
    assert_eq!(q.journees[0].matchs[0].ex, 400);
    assert_eq!(q.journees[0].matchs[1].ex, -500);
    assert_eq!(q.journees[0].ex(), -100);
    assert_eq!(q.processed, 1);
    assert_eq!(q.num_matchs, 2);
    assert_eq!(q.ex, -100);
}

#[test]
fn regroupement_dates_distinctes() {
    // des dates deja deux a deux distinctes : memes journees, triees
    let p = Partie {
        processed: 0,
        num_matchs: 3,
        ex: 0,
        journees: vec![
            Journee { date: Date::new(2024, 3, 2), matchs: vec![Match { ex: 300 }] },
            Journee { date: Date::new(2023, 10, 5), matchs: vec![Match { ex: 100 }] },
            Journee { date: Date::new(2024, 1, 20), matchs: vec![Match { ex: 200 }] },
        ],
    };
    let q = p.regrouper_journees().unwrap();
    assert_eq!(q.journees.len(), 3);
    assert!(q.journees[0].date == Date::new(2023, 10, 5));
    assert!(q.journees[1].date == Date::new(2024, 1, 20));
    assert!(q.journees[2].date == Date::new(2024, 3, 2));
    assert_eq!(q.journees[0].ex(), 100);
    assert_eq!(q.journees[1].ex(), 200);
    assert_eq!(q.journees[2].ex(), 300);
}

#[test]
fn analyse_de_date() {
    assert_eq!(Date::analyser("29/11/2024"), Some(Date::new(2024, 11, 29)));
    assert_eq!(Date::analyser("1/9/2023"), Some(Date::new(2023, 9, 1)));
    assert_eq!(Date::analyser(""), None);
    assert_eq!(Date::analyser("29/11"), None);
    assert_eq!(Date::analyser("29/11/2024/5"), None);
    assert_eq!(Date::analyser("ab/11/2024"), None);
    assert_eq!(Date::analyser("29//2024"), None);
    assert_eq!(Date::analyser("29/11/99999"), None);
}

fn rencontre(tour: u8, a: &str, b: &str, date: Date) -> Rencontre {
    Rencontre {
        tour,
        a: a.to_string(),
        b: b.to_string(),
        scorea: String::new(),
        scoreb: String::new(),
        date,
    }
}

#[test]
fn regroupement_des_tours() {
    // trois rencontres aux tours 1, 2, 1 : deux tours en sortent, chacun
    // avec ses rencontres dans l'ordre d'entree, date du premier observe
    let d1 = Date::new(2023, 10, 5);
    let d2 = Date::new(2023, 11, 5);
    let d3 = Date::new(2023, 10, 6);
    let rencontres = Rencontres {
        rencontres: vec![
            rencontre(1, "A", "B", d1),
            rencontre(2, "C", "D", d2),
            rencontre(1, "E", "F", d3),
        ],
    };
    let tours = grouper_tours(&rencontres).unwrap();
    assert_eq!(tours.len(), 2);
    assert_eq!(tours[0].0, 1);
    assert_eq!(tours[0].1.numero, 1);
    assert!(tours[0].1.date == d1);
    assert_eq!(tours[0].1.rencontres.rencontres.len(), 2);
    assert_eq!(tours[0].1.rencontres.rencontres[0].a, "A");
    assert_eq!(tours[0].1.rencontres.rencontres[1].a, "E");
    assert_eq!(tours[1].0, 2);
    assert_eq!(tours[1].1.numero, 2);
    assert!(tours[1].1.date == d2);
    assert_eq!(tours[1].1.rencontres.rencontres.len(), 1);
    assert_eq!(tours[1].1.rencontres.rencontres[0].a, "C");
}

#[test]
fn tours_non_denses() {
    // les numeros observes {1, 3} ne forment pas la suite pleine 1..2 :
    // le regroupement echoue explicitement
    let d = Date::new(2023, 10, 5);
    let rencontres = Rencontres {
        rencontres: vec![rencontre(1, "A", "B", d), rencontre(3, "C", "D", d)],
    };
    assert!(grouper_tours(&rencontres).is_none());
}

#[test]
fn analyse_du_lien_de_poule() {
    let lien = "cx_poule=420292&D1=07281&organisme_pere=33";
    let poule = analyser_lien_poule(lien).unwrap();
    assert_eq!(poule.division, "07281");
    assert_eq!(poule.numero, "420292");
    assert!(analyser_lien_poule("cx_poule=420292&organisme_pere=33").is_none());
    assert!(analyser_lien_poule("").is_none());
}

#[test]
fn test_display() {
    let joueur = Joueur {
        licence: "12345".to_string(),
        nom: "Doe".to_string(),
        prenom: "John".to_string(),
        points_init: 100000,
        point: 110000,
        virtuel: 120000,
    };
    assert_eq!(joueur.display(), "John Doe");
}

#[test]
fn position_du_club() {
    let club = Club {
        numero: "11340010".to_string(),
        nom: "MONTPELLIER TT".to_string(),
        nomsalle: String::new(),
        adressesalle1: String::new(),
        adressesalle2: String::new(),
        adressesalle3: String::new(),
        codepsalle: String::new(),
        villesalle: String::new(),
        latitude: "3.8".to_string(),
        longitude: "43.6".to_string(),
    };
    // latitude < longitude : une saisie inversee, remise a l'endroit
    let corrige = club.corriger_position();
    assert_eq!(corrige.latitude, "43.6");
    assert_eq!(corrige.longitude, "3.8");
    let deja_bon = Club {
        latitude: "43.6".to_string(),
        longitude: "3.8".to_string(),
        ..corrige
    };
    let inchange = deja_bon.corriger_position();
    assert_eq!(inchange.latitude, "43.6");
    assert_eq!(inchange.longitude, "3.8");
}

#[test]
fn date_du_jour() {
    if let Some(d) = Date::now() {
        assert!(1 <= d.mois && d.mois <= 12);
        assert!(1 <= d.jour && d.jour <= 31);
    }
}
