use unicafe_menu::escape::format_for_markdown;

#[test]
fn escape_plain_text_unchanged() {
    assert_eq!(format_for_markdown("Ei ruokaa"), "Ei ruokaa");
}

#[test]
fn escape_each_reserved_char_once() {
    assert_eq!(format_for_markdown("A-B.C"), "A\\-B\\.C");
}

#[test]
fn escape_all_reserved_chars() {
    assert_eq!(
        format_for_markdown("-._*[]()~`>#+=|{}!"),
        "\\-\\.\\_\\*\\[\\]\\(\\)\\~\\`\\>\\#\\+\\=\\|\\{\\}\\!"
    );
}

#[test]
fn escape_leaves_currency_and_newline() {
    assert_eq!(format_for_markdown("2.80\u{20ac}\n"), "2\\.80\u{20ac}\n");
}

#[test]
fn escape_matches_sequential_replace_passes() {
    let samples = [
        "Kasvispasta, 2.80\u{20ac}",
        "A-B.C_D*E[F]G(H)I~J`K>L#M+N=O|P{Q}R!S",
        "Aukioloajat: 10-14",
        "plain text with spaces",
        "",
    ];
    for s in samples {
        let sequential = s
            .replace("-", "\\-")
            .replace(".", "\\.")
            .replace("_", "\\_")
            .replace("*", "\\*")
            .replace("[", "\\[")
            .replace("]", "\\]")
            .replace("(", "\\(")
            .replace(")", "\\)")
            .replace("~", "\\~")
            .replace("`", "\\`")
            .replace(">", "\\>")
            .replace("#", "\\#")
            .replace("+", "\\+")
            .replace("=", "\\=")
            .replace("|", "\\|")
            .replace("{", "\\{")
            .replace("}", "\\}")
            .replace("!", "\\!");
        assert_eq!(format_for_markdown(s), sequential);
    }
}
