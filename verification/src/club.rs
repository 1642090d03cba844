//! Club : son identite et sa salle de competition.

use vstd::prelude::*;

use crate::chaine::{lex_inferieure, texte_inferieur};

verus! {

/// Un club de tennis de table.
#[derive(Debug)]
pub struct Club {
    /// le numero identifiant le club
    pub numero: String,
    /// le nom du club
    pub nom: String,
    /// le nom de la salle accueillant les competitions
    pub nomsalle: String,
    /// l'adresse de la premiere salle de competition
    pub adressesalle1: String,
    /// l'adresse de la deuxieme salle de competition
    pub adressesalle2: String,
    /// l'adresse de la troisieme salle de competition
    pub adressesalle3: String,
    /// le code postal de la salle
    pub codepsalle: String,
    /// la ville de la salle
    pub villesalle: String,
    /// la latitude de la position GPS de la salle
    pub latitude: String,
    /// la longitude de la position GPS de la salle
    pub longitude: String,
}

impl Club {
    /// Remet la position GPS dans l'ordre attendu : en France la longitude
    /// d'un club est inferieure a sa latitude ; si la saisie les a
    /// inversees — latitude strictement inferieure a la longitude, dans
    /// l'ordre lexicographique du texte — les deux champs sont echanges.
    /// Tout le reste est conserve tel quel.
    pub fn corriger_position(self) -> (r: Club)
        ensures
            lex_inferieure(self.latitude@, self.longitude@) ==> r.latitude == self.longitude
                && r.longitude == self.latitude,
            !lex_inferieure(self.latitude@, self.longitude@) ==> r.latitude == self.latitude
                && r.longitude == self.longitude,
            r.numero == self.numero,
            r.nom == self.nom,
            r.nomsalle == self.nomsalle,
            r.adressesalle1 == self.adressesalle1,
            r.adressesalle2 == self.adressesalle2,
            r.adressesalle3 == self.adressesalle3,
            r.codepsalle == self.codepsalle,
            r.villesalle == self.villesalle,
    {
        let inversee = texte_inferieur(self.latitude.as_str(), self.longitude.as_str());
        let Club {
            numero,
            nom,
            nomsalle,
            adressesalle1,
            adressesalle2,
            adressesalle3,
            codepsalle,
            villesalle,
            latitude,
            longitude,
        } = self;
        if inversee {
            Club {
                numero,
                nom,
                nomsalle,
                adressesalle1,
                adressesalle2,
                adressesalle3,
                codepsalle,
                villesalle,
                latitude: longitude,
                longitude: latitude,
            }
        } else {
            Club {
                numero,
                nom,
                nomsalle,
                adressesalle1,
                adressesalle2,
                adressesalle3,
                codepsalle,
                villesalle,
                latitude,
                longitude,
            }
        }
    }
}

} // verus!
