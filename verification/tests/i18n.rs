use wallet::i18n::{preferred_from_accept_language, resolve, Locale};

#[test]
fn tags_resolve_ignoring_case_and_region() {
    assert_eq!(Locale::from_tag("pt"), Some(Locale::PtBr));
    assert_eq!(Locale::from_tag("pt-BR"), Some(Locale::PtBr));
    assert_eq!(Locale::from_tag("PT_br"), Some(Locale::PtBr));
    assert_eq!(Locale::from_tag("en-US"), Some(Locale::En));
    assert_eq!(Locale::from_tag(" en "), Some(Locale::En));
    assert_eq!(Locale::from_tag("es"), None);
    assert_eq!(Locale::from_tag(""), None);
}

#[test]
fn accept_language_takes_the_first_supported_entry() {
    assert_eq!(
        preferred_from_accept_language("en-US,en;q=0.9,pt;q=0.8"),
        Some(Locale::En)
    );
    assert_eq!(
        preferred_from_accept_language("fr-FR,fr;q=0.9,pt-BR;q=0.8"),
        Some(Locale::PtBr)
    );
    assert_eq!(preferred_from_accept_language("fr,es"), None);
}

#[test]
fn explicit_cookie_beats_browser_preference_and_default_is_ptbr() {
    assert_eq!(resolve(Some("en"), Some("pt-BR,pt;q=0.9")), Locale::En);
    assert_eq!(resolve(None, Some("en-US,en;q=0.9")), Locale::En);
    assert_eq!(resolve(Some("lixo"), Some("fr")), Locale::PtBr);
    assert_eq!(resolve(None, None), Locale::PtBr);
}

#[test]
fn transaction_kinds_localize_with_a_fallback() {
    assert_eq!(Locale::PtBr.strings().tx_kind("deposit"), "deposito");
    assert_eq!(Locale::En.strings().tx_kind("deposit"), "deposit");
    assert_eq!(Locale::En.strings().tx_kind("???"), "transaction");
}

#[test]
fn every_language_tag_names_its_language_again() {
    for locale in [Locale::PtBr, Locale::En] {
        assert_eq!(Locale::from_tag(locale.tag()), Some(locale));
    }
    assert_eq!(Locale::PtBr.tag(), "pt-BR");
    assert_eq!(Locale::En.tag(), "en");
}

#[test]
fn the_two_catalogues_differ() {
    assert_ne!(
        Locale::PtBr.strings().flash_insufficient_balance,
        Locale::En.strings().flash_insufficient_balance
    );
    assert_eq!(Locale::PtBr.strings().unit_trillion, "tri");
    assert_eq!(Locale::En.strings().unit_billion, "B");
}
