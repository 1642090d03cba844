//! Joueur licencie : son identite, ses points au fil de la saison, et les
//! fautes que sa recuperation peut rencontrer.
//!
//! Les points sont portes en centiemes de point par des entiers, comme
//! partout dans la bibliotheque.

use vstd::prelude::*;
use vstd::string::StringExecFns;

verus! {

/// Les fautes rencontrees en recuperant un joueur.
#[derive(Debug)]
pub enum JoueurError {
    /// le joueur est introuvable
    NotFound,
    /// le joueur n'a aucune partie
    AucunePartie,
}

/// Un joueur licencie.
#[derive(Debug)]
pub struct Joueur {
    /// numero de licence
    pub licence: String,
    /// nom du joueur
    pub nom: String,
    /// prenom du joueur
    pub prenom: String,
    /// ses points de debut de saison, en centiemes de point
    pub points_init: i64,
    /// ses points en debut de phase, en centiemes de point
    pub point: i64,
    /// ses points actuels, en centiemes de point
    pub virtuel: i64,
}

impl Joueur {
    /// Le nom d'usage du joueur : son prenom, une espace, son nom.
    pub fn display(&self) -> (r: String)
        ensures
            r@ == self.prenom@ + " "@ + self.nom@,
    {
        let mut r = self.prenom.clone();
        r.append(" ");
        r.append(self.nom.as_str());
        r
    }
}

} // verus!
