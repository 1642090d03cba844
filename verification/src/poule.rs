//! Poule d'une division : son identite et les classements de ses equipes.

use vstd::prelude::*;

verus! {

/// Une poule, identifiee par sa division et son numero.
#[derive(Debug)]
pub struct Poule {
    pub division: String,
    pub numero: String,
}

/// Le classement d'une equipe dans sa poule.
#[derive(Debug)]
pub struct Classement {
    /// numero de la poule
    pub numero_poule: u8,
    /// classement dans la poule
    pub classement: u8,
    /// nom de l'equipe
    pub equipe: String,
    /// nombre de matchs joues
    pub joues: u8,
    /// nombre de points
    pub points: u8,
    /// nombre de victoires
    pub victoires: u8,
    /// nombre de defaites
    pub defaites: u8,
    /// nombre de nuls
    pub nuls: u8,
    /// nombre de forfaits
    pub forfaits: u8,
    /// nombre de parties gagnees
    pub parties_gagnees: u8,
    /// nombre de parties perdues
    pub parties_perdues: u8,
    /// le numero du club
    pub numero: String,
}

/// Un ensemble de classements.
#[derive(Debug)]
pub struct Classements {
    pub classements: Vec<Classement>,
}

} // verus!
