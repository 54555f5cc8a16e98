//! The chat commands and their mapping to catalog slugs. The transport
//! layer parses the user's command into this enum and forwards the slug
//! to the pipeline; `Help` carries no slug.

use vstd::prelude::*;

verus! {

/// One chat command per supported location, plus `Help`.
#[derive(Debug, Clone, Copy, PartialEq, Eq, Structural)]
pub enum Command {
    Help,
    Chemicum,
    Exactum,
    Physicum,
    Kaivopiha,
    WellKaisa,
    Viikuna,
    Sockom,
    Rotunda,
    Porthania,
    Pescovege,
    Olivia,
    Metsatalo,
    Meilahti,
    Infokeskus,
    Portaali,
    Biokeskus,
}

impl Command {
    /// The slug this command resolves, or `None` for `Help`.
    pub fn slug(&self) -> (r: Option<&'static str>)
        ensures
            match self {
                Command::Help => r is None,
                Command::Chemicum => r matches Some(s) && s@ == "chemicum"@,
                Command::Exactum => r matches Some(s) && s@ == "exactum"@,
                Command::Physicum => r matches Some(s) && s@ == "physicum"@,
                Command::Kaivopiha => r matches Some(s) && s@ == "kaivopiha"@,
                Command::WellKaisa => r matches Some(s) && s@ == "well-kaisa-talo"@,
                Command::Viikuna => r matches Some(s) && s@ == "viikuna"@,
                Command::Sockom => r matches Some(s) && s@ == "sockom"@,
                Command::Rotunda => r matches Some(s) && s@ == "rotunda"@,
                Command::Porthania => r matches Some(s) && s@ == "porthania"@,
                Command::Pescovege => r matches Some(s) && s@ == "pesco-vege-topelias"@,
                Command::Olivia => r matches Some(s) && s@ == "olivia"@,
                Command::Metsatalo => r matches Some(s) && s@ == "metsatalo"@,
                Command::Meilahti => r matches Some(s) && s@ == "meilahti"@,
                Command::Infokeskus => r matches Some(s) && s@ == "infokeskus"@,
                Command::Portaali => r matches Some(s) && s@ == "portaali"@,
                Command::Biokeskus => r matches Some(s) && s@ == "biokeskus-3"@,
            },
    {
        match self {
            Command::Help => None,
            Command::Chemicum => Some("chemicum"),
            Command::Exactum => Some("exactum"),
            Command::Physicum => Some("physicum"),
            Command::Kaivopiha => Some("kaivopiha"),
            Command::WellKaisa => Some("well-kaisa-talo"),
            Command::Viikuna => Some("viikuna"),
            Command::Sockom => Some("sockom"),
            Command::Rotunda => Some("rotunda"),
            Command::Porthania => Some("porthania"),
            Command::Pescovege => Some("pesco-vege-topelias"),
            Command::Olivia => Some("olivia"),
            Command::Metsatalo => Some("metsatalo"),
            Command::Meilahti => Some("meilahti"),
            Command::Infokeskus => Some("infokeskus"),
            Command::Portaali => Some("portaali"),
            Command::Biokeskus => Some("biokeskus-3"),
        }
    }
}

} // verus!
