//! Coeur verifie d'une bibliotheque de suivi d'une saison de tennis de table :
//! dates comparables de la saison, regroupement chronologique des journees
//! d'une partie, et regroupement des rencontres par tour.
//!
//! La recuperation reseau et le decodage des reponses restent hors de ce
//! coeur : ils fournissent des valeurs deja structurees.

use vstd::prelude::*;

pub mod chaine;
pub mod club;
pub mod date;
pub mod equipe;
pub mod joueur;
pub mod journee;
pub mod partie;
pub mod poule;
pub mod tour;

verus! {

/// Les valeurs mathematiques des elements d'une suite, element par element.
pub open spec fn vues<T: View>(s: Seq<T>) -> Seq<T::V> {
    Seq::new(s.len(), |i: int| s[i]@)
}

/// Mois separant la phase 1 de la phase 2
pub const MISAISON_MOIS: u8 = 1;

/// Jour du mois separant la phase 1 de la phase 2
pub const MISAISON_JOUR: u8 = 11;

/// Mois du debut de saison
pub const DEBSAISON_MOIS: u8 = 9;

/// Jour du debut de saison
pub const DEBSAISON_JOUR: u8 = 1;

} // verus!
