use fontmodel::token::Kind;

/// 128 is the max size of our TokenSet.
#[test]
fn max_lexed_token_discriminent() {
    assert!(
        (Kind::OlderSiblingFontAttributeKw as u16) < 127,
        "{}",
        Kind::OlderSiblingFontAttributeKw as u16
    );
}

#[test]
fn keywords_are_told_by_their_spelling() {
    assert_eq!(Kind::from_keyword(b"anchor"), Some(Kind::AnchorKw));
    assert_eq!(Kind::from_keyword(b"anchorDef"), Some(Kind::AnchorDefKw));
    assert_eq!(Kind::from_keyword(b"NULL"), Some(Kind::NullKw));
    assert_eq!(
        Kind::from_keyword(b"HorizAxis.BaseScriptList"),
        Some(Kind::HorizAxisBaseScriptListKw)
    );
    assert_eq!(
        Kind::from_keyword(b"OlderSiblingFontAttribute"),
        Some(Kind::OlderSiblingFontAttributeKw)
    );
    assert_eq!(Kind::from_keyword(b"winAscent"), Some(Kind::WinAscentKw));
}

#[test]
fn keywords_with_two_spellings() {
    assert_eq!(Kind::from_keyword(b"anon"), Some(Kind::AnonKw));
    assert_eq!(Kind::from_keyword(b"anonymous"), Some(Kind::AnonKw));
    assert_eq!(Kind::from_keyword(b"enum"), Some(Kind::EnumKw));
    assert_eq!(Kind::from_keyword(b"enumerate"), Some(Kind::EnumKw));
    assert_eq!(Kind::from_keyword(b"exclude_dflt"), Some(Kind::ExcludeDfltKw));
    assert_eq!(Kind::from_keyword(b"excludeDFLT"), Some(Kind::ExcludeDfltKw));
    assert_eq!(Kind::from_keyword(b"include_dflt"), Some(Kind::IncludeDfltKw));
    assert_eq!(Kind::from_keyword(b"includeDFLT"), Some(Kind::IncludeDfltKw));
    assert_eq!(Kind::from_keyword(b"pos"), Some(Kind::PosKw));
    assert_eq!(Kind::from_keyword(b"position"), Some(Kind::PosKw));
    assert_eq!(Kind::from_keyword(b"rsub"), Some(Kind::RsubKw));
    assert_eq!(Kind::from_keyword(b"reversesub"), Some(Kind::RsubKw));
    assert_eq!(Kind::from_keyword(b"sub"), Some(Kind::SubKw));
    assert_eq!(Kind::from_keyword(b"substitute"), Some(Kind::SubKw));
}

#[test]
fn other_words_are_no_keywords() {
    assert_eq!(Kind::from_keyword(b""), None);
    assert_eq!(Kind::from_keyword(b"Anchor"), None);
    assert_eq!(Kind::from_keyword(b"anchor "), None);
    assert_eq!(Kind::from_keyword(b"ancho"), None);
    assert_eq!(Kind::from_keyword(b"null"), None);
    assert_eq!(Kind::from_keyword(b"ligature"), None);
    assert_eq!(Kind::from_keyword(b"base"), None);
    assert_eq!(Kind::from_keyword("flag\u{e9}".as_bytes()), None);
}

#[test]
fn kinds_with_contents() {
    for kind in [
        Kind::Ident,
        Kind::String,
        Kind::StringUnterminated,
        Kind::Float,
        Kind::Hex,
        Kind::HexEmpty,
        Kind::Octal,
        Kind::Comment,
        Kind::Whitespace,
        Kind::NamedGlyphClass,
        Kind::GlyphName,
        Kind::Metric,
        Kind::Number,
        Kind::Label,
    ] {
        assert!(kind.has_contents(), "{kind:?}");
    }
    for kind in [
        Kind::Tombstone,
        Kind::Eof,
        Kind::Semi,
        Kind::Cid,
        Kind::TableKw,
        Kind::GlyphClass,
        Kind::GlyphRange,
        Kind::ScriptRecordNode,
    ] {
        assert!(!kind.has_contents(), "{kind:?}");
    }
}

#[test]
fn kinds_are_shown_by_their_text() {
    assert_eq!(Kind::Eof.to_string(), "EOF");
    assert_eq!(Kind::Tombstone.to_string(), "X_X");
    assert_eq!(Kind::StringUnterminated.to_string(), "STR OPEN");
    assert_eq!(Kind::Backslash.to_string(), "\\");
    assert_eq!(Kind::LBrace.to_string(), "{");
    assert_eq!(Kind::RBrace.to_string(), "}");
    assert_eq!(Kind::SingleQuote.to_string(), "'");
    assert_eq!(Kind::NamedGlyphClass.to_string(), "@GlyphClass");
    assert_eq!(Kind::TableKw.to_string(), "TableKw");
    assert_eq!(
        Kind::HorizAxisBaseScriptListKw.to_string(),
        "HorizAxis.BaseScriptList"
    );
    assert_eq!(Kind::WinAscentKw.to_string(), "winAscent");
    assert_eq!(Kind::ScriptRecordNode.to_string(), "ScriptRecoordNode");
}

#[test]
fn kinds_stand_in_their_order() {
    assert_eq!(Kind::Tombstone as u16, 0);
    assert_eq!(Kind::Eof as u16, 1);
    assert!((Kind::LigatureKw as u16) > (Kind::OlderSiblingFontAttributeKw as u16));
    assert!((Kind::TableEntryNode as u16) > (Kind::GlyphClass as u16));
}
