use gettext::{parse_catalog, Catalog, Error, ParseOptions};

/// Assembles a little-endian MO container from raw entry byte pairs.
fn mo_raw(entries: &[(&[u8], &[u8])]) -> Vec<u8> {
    let n = entries.len() as u32;
    let o_tab = 28u32;
    let t_tab = o_tab + 8 * n;
    let base = t_tab + 8 * n;
    let mut strings: Vec<u8> = Vec::new();
    let mut o_entries: Vec<(u32, u32)> = Vec::new();
    let mut t_entries: Vec<(u32, u32)> = Vec::new();
    for (orig, _) in entries {
        o_entries.push((orig.len() as u32, base + strings.len() as u32));
        strings.extend_from_slice(orig);
    }
    for (_, trans) in entries {
        t_entries.push((trans.len() as u32, base + strings.len() as u32));
        strings.extend_from_slice(trans);
    }
    let mut buf: Vec<u8> = Vec::new();
    buf.extend_from_slice(&0x950412deu32.to_le_bytes());
    buf.extend_from_slice(&0u32.to_le_bytes());
    buf.extend_from_slice(&n.to_le_bytes());
    buf.extend_from_slice(&o_tab.to_le_bytes());
    buf.extend_from_slice(&t_tab.to_le_bytes());
    buf.extend_from_slice(&0u32.to_le_bytes());
    buf.extend_from_slice(&0u32.to_le_bytes());
    for (l, o) in o_entries {
        buf.extend_from_slice(&l.to_le_bytes());
        buf.extend_from_slice(&o.to_le_bytes());
    }
    for (l, o) in t_entries {
        buf.extend_from_slice(&l.to_le_bytes());
        buf.extend_from_slice(&o.to_le_bytes());
    }
    buf.extend_from_slice(&strings);
    buf
}

fn mo(entries: &[(&str, &str)]) -> Vec<u8> {
    let raw: Vec<(&[u8], &[u8])> = entries
        .iter()
        .map(|(o, t)| (o.as_bytes(), t.as_bytes()))
        .collect();
    mo_raw(&raw)
}

#[test]
fn test_complex_plural() {
    let buf = mo(&[
        (
            "",
            "Content-Type: text/plain; charset=UTF-8\nPlural-Forms: nplurals=3; plural=(n == 1 ? 0 : (n == 2 ? 1 : 2));\n",
        ),
        ("Test", "Singular\0Plural 1\0Plural 2"),
    ]);
    let reader: &[u8] = &buf;
    let cat = parse_catalog(reader, ParseOptions::new()).unwrap();

    assert_eq!(cat.ngettext("Test", "Tests", 0), "Plural 2");
    assert_eq!(cat.ngettext("Test", "Tests", 1), "Singular");
    assert_eq!(cat.ngettext("Test", "Tests", 2), "Plural 1");
    for i in 3..20 {
        assert_eq!(cat.ngettext("Test", "Tests", i), "Plural 2");
    }
}

#[test]
fn bad_magic() {
    assert!(matches!(Catalog::parse(b"hello world!"), Err(Error::BadMagic)));
    assert!(matches!(Catalog::parse(b""), Err(Error::BadMagic)));
    assert!(matches!(Catalog::parse(b"\x01\x02"), Err(Error::BadMagic)));
}

#[test]
fn truncated_header() {
    // a valid magic, but the buffer ends before the header is complete
    let buf: &[u8] = &[0xde, 0x12, 0x04, 0x95, 0, 0, 0, 0, 1, 0];
    assert!(matches!(Catalog::parse(buf), Err(Error::TruncatedInput)));
}

#[test]
fn unsupported_revision() {
    let mut buf = mo(&[("Text", "Tekstas")]);
    // set the major half of the packed revision
    buf[4..8].copy_from_slice(&0x0001_0000u32.to_le_bytes());
    assert!(matches!(
        Catalog::parse(&buf),
        Err(Error::UnsupportedRevision)
    ));
}

#[test]
fn invalid_offset() {
    let mut buf = mo(&[("Text", "Tekstas")]);
    // point the original-strings table past the end of the buffer
    let bad = (buf.len() as u32 + 100).to_le_bytes();
    buf[12..16].copy_from_slice(&bad);
    assert!(matches!(Catalog::parse(&buf), Err(Error::InvalidOffset)));
}

#[test]
fn invalid_utf8_is_an_encoding_error() {
    let buf = mo_raw(&[(b"Text", b"\xff\xfe\x01")]);
    assert!(matches!(Catalog::parse(&buf), Err(Error::InvalidEncoding)));
}

#[test]
fn declared_charset_must_be_utf8() {
    let rejected = mo(&[("", "Content-Type: text/plain; charset=ISO-8859-1\n")]);
    assert!(matches!(
        Catalog::parse(&rejected),
        Err(Error::InvalidEncoding)
    ));

    let accepted = mo(&[
        ("", "Content-Type: text/plain; charset=utf-8\n"),
        ("Text", "Tekstas"),
    ]);
    let cat = Catalog::parse(&accepted).unwrap();
    assert_eq!(cat.gettext("Text"), "Tekstas");
}

#[test]
fn force_encoding_override() {
    let buf = mo(&[("Text", "Tekstas")]);
    assert!(matches!(
        ParseOptions::new().force_encoding("latin-1").parse(&buf),
        Err(Error::InvalidEncoding)
    ));
    let cat = ParseOptions::new().force_encoding("UTF-8").parse(&buf).unwrap();
    assert_eq!(cat.gettext("Text"), "Tekstas");
}

#[test]
fn disable_plural_rules_uses_builtin() {
    let buf = mo(&[
        ("", "Plural-Forms: nplurals=3; plural=(n == 1 ? 0 : (n == 2 ? 1 : 2));\n"),
        ("Test", "Singular\0Plural 1\0Plural 2"),
    ]);
    let cat = ParseOptions::new().disable_plural_rules().parse(&buf).unwrap();
    // the built-in rule: form 0 for one, form 1 otherwise
    assert_eq!(cat.ngettext("Test", "Tests", 2), "Plural 1");
    assert_eq!(cat.ngettext("Test", "Tests", 5), "Plural 1");
    assert_eq!(cat.ngettext("Test", "Tests", 1), "Singular");
}

#[test]
fn context_entries_parse() {
    let buf = mo(&[
        ("context\x04Image", "Paveikslelis"),
        ("Image", "Vaizdas"),
    ]);
    let cat = Catalog::parse(&buf).unwrap();
    assert_eq!(cat.pgettext("context", "Image"), "Paveikslelis");
    assert_eq!(cat.gettext("Image"), "Vaizdas");
    assert_eq!(cat.pgettext("other", "Image"), "Image");
}

#[test]
fn big_endian_catalog() {
    // the same layout as mo(), but with every word big-endian
    let orig = b"Text";
    let trans = b"Tekstas";
    let mut buf: Vec<u8> = Vec::new();
    buf.extend_from_slice(&0x950412deu32.to_be_bytes());
    buf.extend_from_slice(&0u32.to_be_bytes());
    buf.extend_from_slice(&1u32.to_be_bytes());
    buf.extend_from_slice(&28u32.to_be_bytes());
    buf.extend_from_slice(&36u32.to_be_bytes());
    buf.extend_from_slice(&0u32.to_be_bytes());
    buf.extend_from_slice(&0u32.to_be_bytes());
    buf.extend_from_slice(&(orig.len() as u32).to_be_bytes());
    buf.extend_from_slice(&44u32.to_be_bytes());
    buf.extend_from_slice(&(trans.len() as u32).to_be_bytes());
    buf.extend_from_slice(&(44 + orig.len() as u32).to_be_bytes());
    buf.extend_from_slice(orig);
    buf.extend_from_slice(trans);
    let cat = Catalog::parse(&buf).unwrap();
    assert_eq!(cat.gettext("Text"), "Tekstas");
}

#[test]
fn rule_errors_surface_at_construction() {
    // unbalanced parentheses
    let buf = mo(&[("", "Plural-Forms: nplurals=2; plural=((n + 1;\n")]);
    assert!(matches!(
        Catalog::parse(&buf),
        Err(Error::SyntaxError { .. })
    ));

    // an identifier other than `n`
    let buf = mo(&[("", "Plural-Forms: nplurals=2; plural=m == 1;\n")]);
    assert!(matches!(
        Catalog::parse(&buf),
        Err(Error::SyntaxError { .. })
    ));

    // division by the literal zero
    let buf = mo(&[("", "Plural-Forms: nplurals=2; plural=n % 0;\n")]);
    assert!(matches!(Catalog::parse(&buf), Err(Error::DivisionByZero)));
}

#[test]
fn parse_is_idempotent() {
    let buf = mo(&[
        (
            "",
            "Content-Type: text/plain; charset=UTF-8\nPlural-Forms: nplurals=2; plural=n != 1;\n",
        ),
        ("Text", "Tekstas\0Tekstai"),
        ("context\x04Image", "Paveikslelis"),
    ]);
    let c1 = Catalog::parse(&buf).unwrap();
    let c2 = Catalog::parse(&buf).unwrap();
    for id in ["Text", "Image", "Unknown", ""] {
        assert_eq!(c1.gettext(id), c2.gettext(id));
        for n in 0..25u64 {
            assert_eq!(c1.ngettext(id, "x", n), c2.ngettext(id, "x", n));
            assert_eq!(
                c1.npgettext("context", id, "x", n),
                c2.npgettext("context", id, "x", n)
            );
        }
        assert_eq!(c1.pgettext("context", id), c2.pgettext("context", id));
    }
}

#[test]
fn multibyte_strings_decode() {
    let buf = mo(&[("Straße", "gatvė")]);
    let cat = Catalog::parse(&buf).unwrap();
    assert_eq!(cat.gettext("Straße"), "gatvė");
    assert_eq!(cat.gettext("Strasse"), "Strasse");
}

#[test]
fn header_keys_are_case_insensitive() {
    let buf = mo(&[
        ("", "pLuRaL-fOrMs: nplurals=2; plural=n != 1;\n"),
        ("Text", "Tekstas\0Tekstai"),
    ]);
    let cat = Catalog::parse(&buf).unwrap();
    assert_eq!(cat.ngettext("Text", "Texts", 0), "Tekstai");
    assert_eq!(cat.ngettext("Text", "Texts", 1), "Tekstas");
}
