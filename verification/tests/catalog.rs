use gettext::{Catalog, Message};

#[test]
fn catalog_insert() {
    let mut cat = Catalog::new();
    cat.insert(Message::new("thisisid", None, vec![]));
    cat.insert(Message::new("anotherid", Some("context"), vec![]));
    let mut keys = cat.keys();
    keys.sort();
    assert_eq!(keys, &["context\x04anotherid", "thisisid"])
}

#[test]
fn catalog_gettext() {
    let mut cat = Catalog::new();
    cat.insert(Message::new("Text", None, vec!["Tekstas"]));
    cat.insert(Message::new("Image", Some("context"), vec!["Paveikslelis"]));
    assert_eq!(cat.gettext("Text"), "Tekstas");
    assert_eq!(cat.gettext("Image"), "Image");
}

#[test]
fn catalog_ngettext() {
    let mut cat = Catalog::new();
    {
        // n == 1, no translation
        assert_eq!(cat.ngettext("Text", "Texts", 1), "Text");
        // n != 1, no translation
        assert_eq!(cat.ngettext("Text", "Texts", 0), "Texts");
        assert_eq!(cat.ngettext("Text", "Texts", 2), "Texts");
    }
    {
        cat.insert(Message::new("Text", None, vec!["Tekstas", "Tekstai"]));
        // n == 1, translation available
        assert_eq!(cat.ngettext("Text", "Texts", 1), "Tekstas");
        // n != 1, translation available
        assert_eq!(cat.ngettext("Text", "Texts", 0), "Tekstai");
        assert_eq!(cat.ngettext("Text", "Texts", 2), "Tekstai");
    }
}

#[test]
fn catalog_pgettext() {
    let mut cat = Catalog::new();
    cat.insert(Message::new("Text", Some("unit test"), vec!["Tekstas"]));
    assert_eq!(cat.pgettext("unit test", "Text"), "Tekstas");
    assert_eq!(cat.pgettext("integration test", "Text"), "Text");
}

#[test]
fn catalog_npgettext() {
    let mut cat = Catalog::new();
    cat.insert(Message::new(
        "Text",
        Some("unit test"),
        vec!["Tekstas", "Tekstai"],
    ));

    assert_eq!(cat.npgettext("unit test", "Text", "Texts", 1), "Tekstas");
    assert_eq!(cat.npgettext("unit test", "Text", "Texts", 0), "Tekstai");
    assert_eq!(cat.npgettext("unit test", "Text", "Texts", 2), "Tekstai");

    assert_eq!(
        cat.npgettext("integration test", "Text", "Texts", 1),
        "Text"
    );
    assert_eq!(
        cat.npgettext("integration test", "Text", "Texts", 0),
        "Texts"
    );
    assert_eq!(
        cat.npgettext("integration test", "Text", "Texts", 2),
        "Texts"
    );
}

#[test]
fn gettext_unknown_falls_back_to_id() {
    let mut cat = Catalog::new();
    cat.insert(Message::new("Text", None, vec!["Tekstas"]));
    assert_eq!(cat.gettext("Unknown"), "Unknown");
}

#[test]
fn insert_overwrites_same_key() {
    let mut cat = Catalog::new();
    cat.insert(Message::new("Text", None, vec!["Old"]));
    cat.insert(Message::new("Text", None, vec!["New"]));
    assert_eq!(cat.gettext("Text"), "New");
    assert_eq!(cat.keys().len(), 1);
}

#[test]
fn message_forms_by_index() {
    let msg = Message::new("Text", None, vec!["One", "Many"]);
    assert_eq!(msg.get_translated(0), Some("One"));
    assert_eq!(msg.get_translated(1), Some("Many"));
    assert_eq!(msg.get_translated(2), None);
}

#[test]
fn empty_message_has_no_forms() {
    let mut cat = Catalog::new();
    cat.insert(Message::new("Text", None, vec![]));
    // found, but without a single form: fall back to the id strings
    assert_eq!(cat.gettext("Text"), "Text");
    assert_eq!(cat.ngettext("Text", "Texts", 1), "Text");
    assert_eq!(cat.ngettext("Text", "Texts", 5), "Texts");
}
