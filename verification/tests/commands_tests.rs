use unicafe_menu::commands::Command;

#[test]
fn help_has_no_slug() {
    assert_eq!(Command::Help.slug(), None);
}

#[test]
fn commands_map_to_slugs() {
    let cases = [
        (Command::Chemicum, "chemicum"),
        (Command::Exactum, "exactum"),
        (Command::Physicum, "physicum"),
        (Command::Kaivopiha, "kaivopiha"),
        (Command::WellKaisa, "well-kaisa-talo"),
        (Command::Viikuna, "viikuna"),
        (Command::Sockom, "sockom"),
        (Command::Rotunda, "rotunda"),
        (Command::Porthania, "porthania"),
        (Command::Pescovege, "pesco-vege-topelias"),
        (Command::Olivia, "olivia"),
        (Command::Metsatalo, "metsatalo"),
        (Command::Meilahti, "meilahti"),
        (Command::Infokeskus, "infokeskus"),
        (Command::Portaali, "portaali"),
        (Command::Biokeskus, "biokeskus-3"),
    ];
    for (command, slug) in cases {
        assert_eq!(command.slug(), Some(slug));
    }
}
