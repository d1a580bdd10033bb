//! The kinds of token that a feature file is split into.

use vstd::prelude::*;
use vstd::string::StringSliceAdditionalSpecFns;

verus! {

/// Kinds of tokens assigned during lexing and parsing.
///
/// The order of the variants is part of the interface: every kind that the
/// lexer can produce comes before the kinds that only the parser assigns, so
/// that the lexed kinds fit in a 128-bit set.
#[derive(Debug, Clone, Copy, PartialEq, Eq, Structural)]
pub enum Kind {
    Tombstone,
    Eof,
    SourceFile,
    // a name or a keyword or any other block of non-whitespace
    Ident,
    String,
    StringUnterminated,
    Number,
    Octal,
    Hex,
    HexEmpty,
    Float,
    Whitespace,
    Comment,
    // special symbols
    Semi,
    Comma,
    Backslash,
    Hyphen,
    Eq,
    LBrace,
    RBrace,
    LSquare,
    RSquare,
    LParen,
    RParen,
    LAngle,
    RAngle,
    SingleQuote,
    NamedGlyphClass,
    Cid,
    // top-level keywords
    TableKw,
    LookupKw,
    LanguagesystemKw,
    AnchorDefKw,
    FeatureKw,
    MarkClassKw,
    AnonKw,
    // other keywords
    AnchorKw,
    ByKw,
    ContourpointKw,
    CursiveKw,
    DeviceKw,
    EnumKw,
    ExcludeDfltKw,
    FromKw,
    IgnoreKw,
    IgnoreBaseGlyphsKw,
    IgnoreLigaturesKw,
    IgnoreMarksKw,
    IncludeKw,
    IncludeDfltKw,
    LanguageKw,
    LookupflagKw,
    MarkKw,
    MarkAttachmentTypeKw,
    NameIdKw,
    NullKw,
    ParametersKw,
    PosKw,
    RequiredKw,
    RightToLeftKw,
    RsubKw,
    ScriptKw,
    SubKw,
    SubtableKw,
    UseExtensionKw,
    UseMarkFilteringSetKw,
    ValueRecordDefKw,
    // keywords only in specific table contexts
    HorizAxisBaseScriptListKw,
    HorizAxisBaseTagListKw,
    HorizAxisMinMaxKw,
    VertAxisBaseScriptListKw,
    VertAxisBaseTagListKw,
    VertAxisMinMaxKw,
    AttachKw,
    GlyphClassDefKw,
    LigatureCaretByDevKw,
    LigatureCaretByIndexKw,
    LigatureCaretByPosKw,
    MarkAttachClassKw,
    FontRevisionKw,
    AscenderKw,
    CaretOffsetKw,
    DescenderKw,
    LineGapKw,
    CapHeightKw,
    CodePageRangeKw,
    PanoseKw,
    TypoAscenderKw,
    TypoDescenderKw,
    TypoLineGapKw,
    UnicodeRangeKw,
    VendorKw,
    WinAscentKw,
    WinDescentKw,
    XHeightKw,
    SizemenunameKw,
    VertTypoAscenderKw,
    VertTypoDescenderKw,
    VertTypoLineGapKw,
    VertAdvanceYKw,
    VertOriginYKw,
    ElidedFallbackNameKw,
    ElidedFallbackNameIDKw,
    DesignAxisKw,
    AxisValueKw,
    FlagKw,
    LocationKw,
    ElidableAxisValueNameKw,
    OlderSiblingFontAttributeKw,
    // assigned during parsing, never lexed
    LigatureKw,
    BaseKw,
    GlyphRange,
    Metric,
    Label,
    Tag,
    Path,
    GlyphName,
    GlyphClass,
    // nodes, assigned during parsing
    TableEntryNode,
    GposNode,
    GsubNode,
    AnchorMarkNode,
    ValueRecordNode,
    LookupRefNode,
    LookupBlockNode,
    ScriptRecordNode,
}

/// Whether two byte strings hold the same bytes.
fn same_bytes(a: &[u8], b: &[u8]) -> (same: bool)
    ensures
        same == (a@ == b@),
{
    if a.len() != b.len() {
        return false;
    }
    let mut i: usize = 0;
    while i < a.len()
        invariant
            a.len() == b.len(),
            i <= a.len(),
            forall|j: int| 0 <= j < i ==> a@[j] == b@[j],
        decreases a.len() - i,
    {
        if a[i] != b[i] {
            return false;
        }
        i += 1;
    }
    assert(a@ =~= b@);
    true
}

impl Kind {
    /// Whether tokens of this kind differ in their text, so that the text is
    /// worth showing beside the kind.
    pub open spec fn spec_has_contents(self) -> bool {
        matches!(
            self,
            Kind::Ident
                | Kind::String
                | Kind::StringUnterminated
                | Kind::Float
                | Kind::Hex
                | Kind::HexEmpty
                | Kind::Octal
                | Kind::Comment
                | Kind::Whitespace
                | Kind::NamedGlyphClass
                | Kind::GlyphName
                | Kind::Metric
                | Kind::Number
                | Kind::Label
        )
    }

    /// See [`Kind::spec_has_contents`].
    pub fn has_contents(&self) -> (contents: bool)
        ensures
            contents == self.spec_has_contents(),
    {
        matches!(
            self,
            Kind::Ident
                | Kind::String
                | Kind::StringUnterminated
                | Kind::Float
                | Kind::Hex
                | Kind::HexEmpty
                | Kind::Octal
                | Kind::Comment
                | Kind::Whitespace
                | Kind::NamedGlyphClass
                | Kind::GlyphName
                | Kind::Metric
                | Kind::Number
                | Kind::Label
        )
    }

    /// The kind that a word stands for where it is spelled exactly as a keyword
    /// of the feature file syntax, and `None` for every other word.
    pub open spec fn keyword(word: Seq<u8>) -> Option<Kind> {
        if word == "anchor".spec_bytes() {
            Some(Kind::AnchorKw)
        } else if word == "anchorDef".spec_bytes() {
            Some(Kind::AnchorDefKw)
        } else if word == "anon".spec_bytes() {
            Some(Kind::AnonKw)
        } else if word == "anonymous".spec_bytes() {
            Some(Kind::AnonKw)
        } else if word == "by".spec_bytes() {
            Some(Kind::ByKw)
        } else if word == "contourpoint".spec_bytes() {
            Some(Kind::ContourpointKw)
        } else if word == "cursive".spec_bytes() {
            Some(Kind::CursiveKw)
        } else if word == "device".spec_bytes() {
            Some(Kind::DeviceKw)
        } else if word == "enum".spec_bytes() {
            Some(Kind::EnumKw)
        } else if word == "enumerate".spec_bytes() {
            Some(Kind::EnumKw)
        } else if word == "exclude_dflt".spec_bytes() {
            Some(Kind::ExcludeDfltKw)
        } else if word == "excludeDFLT".spec_bytes() {
            Some(Kind::ExcludeDfltKw)
        } else if word == "feature".spec_bytes() {
            Some(Kind::FeatureKw)
        } else if word == "from".spec_bytes() {
            Some(Kind::FromKw)
        } else if word == "ignore".spec_bytes() {
            Some(Kind::IgnoreKw)
        } else if word == "IgnoreBaseGlyphs".spec_bytes() {
            Some(Kind::IgnoreBaseGlyphsKw)
        } else if word == "IgnoreLigatures".spec_bytes() {
            Some(Kind::IgnoreLigaturesKw)
        } else if word == "IgnoreMarks".spec_bytes() {
            Some(Kind::IgnoreMarksKw)
        } else if word == "include".spec_bytes() {
            Some(Kind::IncludeKw)
        } else if word == "include_dflt".spec_bytes() {
            Some(Kind::IncludeDfltKw)
        } else if word == "includeDFLT".spec_bytes() {
            Some(Kind::IncludeDfltKw)
        } else if word == "language".spec_bytes() {
            Some(Kind::LanguageKw)
        } else if word == "languagesystem".spec_bytes() {
            Some(Kind::LanguagesystemKw)
        } else if word == "lookup".spec_bytes() {
            Some(Kind::LookupKw)
        } else if word == "lookupflag".spec_bytes() {
            Some(Kind::LookupflagKw)
        } else if word == "mark".spec_bytes() {
            Some(Kind::MarkKw)
        } else if word == "MarkAttachmentType".spec_bytes() {
            Some(Kind::MarkAttachmentTypeKw)
        } else if word == "markClass".spec_bytes() {
            Some(Kind::MarkClassKw)
        } else if word == "nameid".spec_bytes() {
            Some(Kind::NameIdKw)
        } else if word == "NULL".spec_bytes() {
            Some(Kind::NullKw)
        } else if word == "parameters".spec_bytes() {
            Some(Kind::ParametersKw)
        } else if word == "pos".spec_bytes() {
            Some(Kind::PosKw)
        } else if word == "position".spec_bytes() {
            Some(Kind::PosKw)
        } else if word == "required".spec_bytes() {
            Some(Kind::RequiredKw)
        } else if word == "reversesub".spec_bytes() {
            Some(Kind::RsubKw)
        } else if word == "rsub".spec_bytes() {
            Some(Kind::RsubKw)
        } else if word == "RightToLeft".spec_bytes() {
            Some(Kind::RightToLeftKw)
        } else if word == "script".spec_bytes() {
            Some(Kind::ScriptKw)
        } else if word == "substitute".spec_bytes() {
            Some(Kind::SubKw)
        } else if word == "sub".spec_bytes() {
            Some(Kind::SubKw)
        } else if word == "subtable".spec_bytes() {
            Some(Kind::SubtableKw)
        } else if word == "table".spec_bytes() {
            Some(Kind::TableKw)
        } else if word == "useExtension".spec_bytes() {
            Some(Kind::UseExtensionKw)
        } else if word == "UseMarkFilteringSet".spec_bytes() {
            Some(Kind::UseMarkFilteringSetKw)
        } else if word == "valueRecordDef".spec_bytes() {
            Some(Kind::ValueRecordDefKw)
        } else if word == "HorizAxis.BaseScriptList".spec_bytes() {
            Some(Kind::HorizAxisBaseScriptListKw)
        } else if word == "HorizAxis.BaseTagList".spec_bytes() {
            Some(Kind::HorizAxisBaseTagListKw)
        } else if word == "HorizAxis.MinMax".spec_bytes() {
            Some(Kind::HorizAxisMinMaxKw)
        } else if word == "VertAxis.BaseScriptList".spec_bytes() {
            Some(Kind::VertAxisBaseScriptListKw)
        } else if word == "VertAxis.BaseTagList".spec_bytes() {
            Some(Kind::VertAxisBaseTagListKw)
        } else if word == "VertAxis.MinMax".spec_bytes() {
            Some(Kind::VertAxisMinMaxKw)
        } else if word == "Attach".spec_bytes() {
            Some(Kind::AttachKw)
        } else if word == "GlyphClassDef".spec_bytes() {
            Some(Kind::GlyphClassDefKw)
        } else if word == "LigatureCaretByDev".spec_bytes() {
            Some(Kind::LigatureCaretByDevKw)
        } else if word == "LigatureCaretByIndex".spec_bytes() {
            Some(Kind::LigatureCaretByIndexKw)
        } else if word == "LigatureCaretByPos".spec_bytes() {
            Some(Kind::LigatureCaretByPosKw)
        } else if word == "MarkAttachClass".spec_bytes() {
            Some(Kind::MarkAttachClassKw)
        } else if word == "FontRevision".spec_bytes() {
            Some(Kind::FontRevisionKw)
        } else if word == "Ascender".spec_bytes() {
            Some(Kind::AscenderKw)
        } else if word == "CaretOffset".spec_bytes() {
            Some(Kind::CaretOffsetKw)
        } else if word == "Descender".spec_bytes() {
            Some(Kind::DescenderKw)
        } else if word == "LineGap".spec_bytes() {
            Some(Kind::LineGapKw)
        } else if word == "CapHeight".spec_bytes() {
            Some(Kind::CapHeightKw)
        } else if word == "CodePageRange".spec_bytes() {
            Some(Kind::CodePageRangeKw)
        } else if word == "Panose".spec_bytes() {
            Some(Kind::PanoseKw)
        } else if word == "TypoAscender".spec_bytes() {
            Some(Kind::TypoAscenderKw)
        } else if word == "TypoDescender".spec_bytes() {
            Some(Kind::TypoDescenderKw)
        } else if word == "TypoLineGap".spec_bytes() {
            Some(Kind::TypoLineGapKw)
        } else if word == "UnicodeRange".spec_bytes() {
            Some(Kind::UnicodeRangeKw)
        } else if word == "Vendor".spec_bytes() {
            Some(Kind::VendorKw)
        } else if word == "winAscent".spec_bytes() {
            Some(Kind::WinAscentKw)
        } else if word == "winDescent".spec_bytes() {
            Some(Kind::WinDescentKw)
        } else if word == "XHeight".spec_bytes() {
            Some(Kind::XHeightKw)
        } else if word == "sizemenuname".spec_bytes() {
            Some(Kind::SizemenunameKw)
        } else if word == "VertTypoAscender".spec_bytes() {
            Some(Kind::VertTypoAscenderKw)
        } else if word == "VertTypoDescender".spec_bytes() {
            Some(Kind::VertTypoDescenderKw)
        } else if word == "VertTypoLineGap".spec_bytes() {
            Some(Kind::VertTypoLineGapKw)
        } else if word == "VertAdvanceY".spec_bytes() {
            Some(Kind::VertAdvanceYKw)
        } else if word == "VertOriginY".spec_bytes() {
            Some(Kind::VertOriginYKw)
        } else if word == "ElidedFallbackName".spec_bytes() {
            Some(Kind::ElidedFallbackNameKw)
        } else if word == "ElidedFallbackNameID".spec_bytes() {
            Some(Kind::ElidedFallbackNameIDKw)
        } else if word == "DesignAxis".spec_bytes() {
            Some(Kind::DesignAxisKw)
        } else if word == "AxisValue".spec_bytes() {
            Some(Kind::AxisValueKw)
        } else if word == "flag".spec_bytes() {
            Some(Kind::FlagKw)
        } else if word == "location".spec_bytes() {
            Some(Kind::LocationKw)
        } else if word == "ElidableAxisValueName".spec_bytes() {
            Some(Kind::ElidableAxisValueNameKw)
        } else if word == "OlderSiblingFontAttribute".spec_bytes() {
            Some(Kind::OlderSiblingFontAttributeKw)
        } else {
            None
        }
    }

    /// See [`Kind::keyword`].
    pub fn from_keyword(word: &[u8]) -> (kind: Option<Kind>)
        ensures
            kind == Kind::keyword(word@),
    {
        if same_bytes(word, "anchor".as_bytes()) {
            Some(Kind::AnchorKw)
        } else if same_bytes(word, "anchorDef".as_bytes()) {
            Some(Kind::AnchorDefKw)
        } else if same_bytes(word, "anon".as_bytes()) {
            Some(Kind::AnonKw)
        } else if same_bytes(word, "anonymous".as_bytes()) {
            Some(Kind::AnonKw)
        } else if same_bytes(word, "by".as_bytes()) {
            Some(Kind::ByKw)
        } else if same_bytes(word, "contourpoint".as_bytes()) {
            Some(Kind::ContourpointKw)
        } else if same_bytes(word, "cursive".as_bytes()) {
            Some(Kind::CursiveKw)
        } else if same_bytes(word, "device".as_bytes()) {
            Some(Kind::DeviceKw)
        } else if same_bytes(word, "enum".as_bytes()) {
            Some(Kind::EnumKw)
        } else if same_bytes(word, "enumerate".as_bytes()) {
            Some(Kind::EnumKw)
        } else if same_bytes(word, "exclude_dflt".as_bytes()) {
            Some(Kind::ExcludeDfltKw)
        } else if same_bytes(word, "excludeDFLT".as_bytes()) {
            Some(Kind::ExcludeDfltKw)
        } else if same_bytes(word, "feature".as_bytes()) {
            Some(Kind::FeatureKw)
        } else if same_bytes(word, "from".as_bytes()) {
            Some(Kind::FromKw)
        } else if same_bytes(word, "ignore".as_bytes()) {
            Some(Kind::IgnoreKw)
        } else if same_bytes(word, "IgnoreBaseGlyphs".as_bytes()) {
            Some(Kind::IgnoreBaseGlyphsKw)
        } else if same_bytes(word, "IgnoreLigatures".as_bytes()) {
            Some(Kind::IgnoreLigaturesKw)
        } else if same_bytes(word, "IgnoreMarks".as_bytes()) {
            Some(Kind::IgnoreMarksKw)
        } else if same_bytes(word, "include".as_bytes()) {
            Some(Kind::IncludeKw)
        } else if same_bytes(word, "include_dflt".as_bytes()) {
            Some(Kind::IncludeDfltKw)
        } else if same_bytes(word, "includeDFLT".as_bytes()) {
            Some(Kind::IncludeDfltKw)
        } else if same_bytes(word, "language".as_bytes()) {
            Some(Kind::LanguageKw)
        } else if same_bytes(word, "languagesystem".as_bytes()) {
            Some(Kind::LanguagesystemKw)
        } else if same_bytes(word, "lookup".as_bytes()) {
            Some(Kind::LookupKw)
        } else if same_bytes(word, "lookupflag".as_bytes()) {
            Some(Kind::LookupflagKw)
        } else if same_bytes(word, "mark".as_bytes()) {
            Some(Kind::MarkKw)
        } else if same_bytes(word, "MarkAttachmentType".as_bytes()) {
            Some(Kind::MarkAttachmentTypeKw)
        } else if same_bytes(word, "markClass".as_bytes()) {
            Some(Kind::MarkClassKw)
        } else if same_bytes(word, "nameid".as_bytes()) {
            Some(Kind::NameIdKw)
        } else if same_bytes(word, "NULL".as_bytes()) {
            Some(Kind::NullKw)
        } else if same_bytes(word, "parameters".as_bytes()) {
            Some(Kind::ParametersKw)
        } else if same_bytes(word, "pos".as_bytes()) {
            Some(Kind::PosKw)
        } else if same_bytes(word, "position".as_bytes()) {
            Some(Kind::PosKw)
        } else if same_bytes(word, "required".as_bytes()) {
            Some(Kind::RequiredKw)
        } else if same_bytes(word, "reversesub".as_bytes()) {
            Some(Kind::RsubKw)
        } else if same_bytes(word, "rsub".as_bytes()) {
            Some(Kind::RsubKw)
        } else if same_bytes(word, "RightToLeft".as_bytes()) {
            Some(Kind::RightToLeftKw)
        } else if same_bytes(word, "script".as_bytes()) {
            Some(Kind::ScriptKw)
        } else if same_bytes(word, "substitute".as_bytes()) {
            Some(Kind::SubKw)
        } else if same_bytes(word, "sub".as_bytes()) {
            Some(Kind::SubKw)
        } else if same_bytes(word, "subtable".as_bytes()) {
            Some(Kind::SubtableKw)
        } else if same_bytes(word, "table".as_bytes()) {
            Some(Kind::TableKw)
        } else if same_bytes(word, "useExtension".as_bytes()) {
            Some(Kind::UseExtensionKw)
        } else if same_bytes(word, "UseMarkFilteringSet".as_bytes()) {
            Some(Kind::UseMarkFilteringSetKw)
        } else if same_bytes(word, "valueRecordDef".as_bytes()) {
            Some(Kind::ValueRecordDefKw)
        } else if same_bytes(word, "HorizAxis.BaseScriptList".as_bytes()) {
            Some(Kind::HorizAxisBaseScriptListKw)
        } else if same_bytes(word, "HorizAxis.BaseTagList".as_bytes()) {
            Some(Kind::HorizAxisBaseTagListKw)
        } else if same_bytes(word, "HorizAxis.MinMax".as_bytes()) {
            Some(Kind::HorizAxisMinMaxKw)
        } else if same_bytes(word, "VertAxis.BaseScriptList".as_bytes()) {
            Some(Kind::VertAxisBaseScriptListKw)
        } else if same_bytes(word, "VertAxis.BaseTagList".as_bytes()) {
            Some(Kind::VertAxisBaseTagListKw)
        } else if same_bytes(word, "VertAxis.MinMax".as_bytes()) {
            Some(Kind::VertAxisMinMaxKw)
        } else if same_bytes(word, "Attach".as_bytes()) {
            Some(Kind::AttachKw)
        } else if same_bytes(word, "GlyphClassDef".as_bytes()) {
            Some(Kind::GlyphClassDefKw)
        } else if same_bytes(word, "LigatureCaretByDev".as_bytes()) {
            Some(Kind::LigatureCaretByDevKw)
        } else if same_bytes(word, "LigatureCaretByIndex".as_bytes()) {
            Some(Kind::LigatureCaretByIndexKw)
        } else if same_bytes(word, "LigatureCaretByPos".as_bytes()) {
            Some(Kind::LigatureCaretByPosKw)
        } else if same_bytes(word, "MarkAttachClass".as_bytes()) {
            Some(Kind::MarkAttachClassKw)
        } else if same_bytes(word, "FontRevision".as_bytes()) {
            Some(Kind::FontRevisionKw)
        } else if same_bytes(word, "Ascender".as_bytes()) {
            Some(Kind::AscenderKw)
        } else if same_bytes(word, "CaretOffset".as_bytes()) {
            Some(Kind::CaretOffsetKw)
        } else if same_bytes(word, "Descender".as_bytes()) {
            Some(Kind::DescenderKw)
        } else if same_bytes(word, "LineGap".as_bytes()) {
            Some(Kind::LineGapKw)
        } else if same_bytes(word, "CapHeight".as_bytes()) {
            Some(Kind::CapHeightKw)
        } else if same_bytes(word, "CodePageRange".as_bytes()) {
            Some(Kind::CodePageRangeKw)
        } else if same_bytes(word, "Panose".as_bytes()) {
            Some(Kind::PanoseKw)
        } else if same_bytes(word, "TypoAscender".as_bytes()) {
            Some(Kind::TypoAscenderKw)
        } else if same_bytes(word, "TypoDescender".as_bytes()) {
            Some(Kind::TypoDescenderKw)
        } else if same_bytes(word, "TypoLineGap".as_bytes()) {
            Some(Kind::TypoLineGapKw)
        } else if same_bytes(word, "UnicodeRange".as_bytes()) {
            Some(Kind::UnicodeRangeKw)
        } else if same_bytes(word, "Vendor".as_bytes()) {
            Some(Kind::VendorKw)
        } else if same_bytes(word, "winAscent".as_bytes()) {
            Some(Kind::WinAscentKw)
        } else if same_bytes(word, "winDescent".as_bytes()) {
            Some(Kind::WinDescentKw)
        } else if same_bytes(word, "XHeight".as_bytes()) {
            Some(Kind::XHeightKw)
        } else if same_bytes(word, "sizemenuname".as_bytes()) {
            Some(Kind::SizemenunameKw)
        } else if same_bytes(word, "VertTypoAscender".as_bytes()) {
            Some(Kind::VertTypoAscenderKw)
        } else if same_bytes(word, "VertTypoDescender".as_bytes()) {
            Some(Kind::VertTypoDescenderKw)
        } else if same_bytes(word, "VertTypoLineGap".as_bytes()) {
            Some(Kind::VertTypoLineGapKw)
        } else if same_bytes(word, "VertAdvanceY".as_bytes()) {
            Some(Kind::VertAdvanceYKw)
        } else if same_bytes(word, "VertOriginY".as_bytes()) {
            Some(Kind::VertOriginYKw)
        } else if same_bytes(word, "ElidedFallbackName".as_bytes()) {
            Some(Kind::ElidedFallbackNameKw)
        } else if same_bytes(word, "ElidedFallbackNameID".as_bytes()) {
            Some(Kind::ElidedFallbackNameIDKw)
        } else if same_bytes(word, "DesignAxis".as_bytes()) {
            Some(Kind::DesignAxisKw)
        } else if same_bytes(word, "AxisValue".as_bytes()) {
            Some(Kind::AxisValueKw)
        } else if same_bytes(word, "flag".as_bytes()) {
            Some(Kind::FlagKw)
        } else if same_bytes(word, "location".as_bytes()) {
            Some(Kind::LocationKw)
        } else if same_bytes(word, "ElidableAxisValueName".as_bytes()) {
            Some(Kind::ElidableAxisValueNameKw)
        } else if same_bytes(word, "OlderSiblingFontAttribute".as_bytes()) {
            Some(Kind::OlderSiblingFontAttributeKw)
        } else {
            None
        }
    }

    /// The text that stands for this kind in messages.
    pub open spec fn text(self) -> Seq<char> {
        match self {
            Kind::Tombstone => "X_X"@,
            Kind::Eof => "EOF"@,
            Kind::SourceFile => "FILE"@,
            Kind::Ident => "ID"@,
            Kind::String => "STR"@,
            Kind::StringUnterminated => "STR OPEN"@,
            Kind::Number => "NUM"@,
            Kind::Octal => "OCT"@,
            Kind::Hex => "HEX"@,
            Kind::HexEmpty => "HEX EMPTY"@,
            Kind::Float => "FLOAT"@,
            Kind::Whitespace => "WS"@,
            Kind::Comment => "#"@,
            Kind::Semi => ";"@,
            Kind::Comma => ","@,
            Kind::Backslash => "\\"@,
            Kind::Hyphen => "-"@,
            Kind::Eq => "="@,
            Kind::LBrace => "{"@,
            Kind::RBrace => "}"@,
            Kind::LSquare => "["@,
            Kind::RSquare => "]"@,
            Kind::LParen => "("@,
            Kind::RParen => ")"@,
            Kind::LAngle => "<"@,
            Kind::RAngle => ">"@,
            Kind::SingleQuote => "'"@,
            Kind::NamedGlyphClass => "@GlyphClass"@,
            Kind::Cid => "CID"@,
            Kind::TableKw => "TableKw"@,
            Kind::LookupKw => "LookupKw"@,
            Kind::LanguagesystemKw => "LanguagesystemKw"@,
            Kind::AnchorDefKw => "AnchorDefKw"@,
            Kind::FeatureKw => "FeatureKw"@,
            Kind::MarkClassKw => "MarkClassKw"@,
            Kind::AnonKw => "AnonKw"@,
            Kind::AnchorKw => "AnchorKw"@,
            Kind::ByKw => "ByKw"@,
            Kind::ContourpointKw => "ContourpointKw"@,
            Kind::CursiveKw => "CursiveKw"@,
            Kind::DeviceKw => "DeviceKw"@,
            Kind::EnumKw => "EnumKw"@,
            Kind::ExcludeDfltKw => "ExcludeDfltKw"@,
            Kind::FromKw => "FromKw"@,
            Kind::IgnoreKw => "IgnoreKw"@,
            Kind::IgnoreBaseGlyphsKw => "IgnoreBaseGlyphsKw"@,
            Kind::IgnoreLigaturesKw => "IgnoreLigaturesKw"@,
            Kind::IgnoreMarksKw => "IgnoreMarksKw"@,
            Kind::IncludeKw => "IncludeKw"@,
            Kind::IncludeDfltKw => "IncludeDfltKw"@,
            Kind::LanguageKw => "LanguageKw"@,
            Kind::LookupflagKw => "LookupflagKw"@,
            Kind::MarkKw => "MarkKw"@,
            Kind::MarkAttachmentTypeKw => "MarkAttachmentTypeKw"@,
            Kind::NameIdKw => "NameIdKw"@,
            Kind::NullKw => "NullKw"@,
            Kind::ParametersKw => "ParametersKw"@,
            Kind::PosKw => "PosKw"@,
            Kind::RequiredKw => "RequiredKw"@,
            Kind::RightToLeftKw => "RightToLeftKw"@,
            Kind::RsubKw => "RsubKw"@,
            Kind::ScriptKw => "ScriptKw"@,
            Kind::SubKw => "SubKw"@,
            Kind::SubtableKw => "SubtableKw"@,
            Kind::UseExtensionKw => "UseExtensionKw"@,
            Kind::UseMarkFilteringSetKw => "UseMarkFilteringSetKw"@,
            Kind::ValueRecordDefKw => "ValueRecordDefKw"@,
            Kind::HorizAxisBaseScriptListKw => "HorizAxis.BaseScriptList"@,
            Kind::HorizAxisBaseTagListKw => "HorizAxis.BaseTagList"@,
            Kind::HorizAxisMinMaxKw => "HorizAxis.MinMax"@,
            Kind::VertAxisBaseScriptListKw => "VertAxis.BaseScriptList"@,
            Kind::VertAxisBaseTagListKw => "VertAxis.BaseTagList"@,
            Kind::VertAxisMinMaxKw => "VertAxis.MinMax"@,
            Kind::AttachKw => "Attach"@,
            Kind::GlyphClassDefKw => "GlyphClassDef"@,
            Kind::LigatureCaretByDevKw => "LigatureCaretByDev"@,
            Kind::LigatureCaretByIndexKw => "LigatureCaretByIndex"@,
            Kind::LigatureCaretByPosKw => "LigatureCaretByPos"@,
            Kind::MarkAttachClassKw => "MarkAttachClass"@,
            Kind::FontRevisionKw => "FontRevision"@,
            Kind::AscenderKw => "Ascender"@,
            Kind::CaretOffsetKw => "CaretOffset"@,
            Kind::DescenderKw => "Descender"@,
            Kind::LineGapKw => "LineGap"@,
            Kind::CapHeightKw => "CapHeight"@,
            Kind::CodePageRangeKw => "CodePageRange"@,
            Kind::PanoseKw => "Panose"@,
            Kind::TypoAscenderKw => "TypoAscender"@,
            Kind::TypoDescenderKw => "TypoDescender"@,
            Kind::TypoLineGapKw => "TypoLineGap"@,
            Kind::UnicodeRangeKw => "UnicodeRange"@,
            Kind::VendorKw => "Vendor"@,
            Kind::WinAscentKw => "winAscent"@,
            Kind::WinDescentKw => "winDescent"@,
            Kind::XHeightKw => "XHeight"@,
            Kind::SizemenunameKw => "sizemenuname"@,
            Kind::VertTypoAscenderKw => "VertTypoAscender"@,
            Kind::VertTypoDescenderKw => "VertTypoDescender"@,
            Kind::VertTypoLineGapKw => "VertTypoLineGap"@,
            Kind::VertAdvanceYKw => "VertAdvanceY"@,
            Kind::VertOriginYKw => "VertOriginY"@,
            Kind::ElidedFallbackNameKw => "ElidedFallbackName"@,
            Kind::ElidedFallbackNameIDKw => "ElidedFallbackNameID"@,
            Kind::DesignAxisKw => "DesignAxis"@,
            Kind::AxisValueKw => "AxisValue"@,
            Kind::FlagKw => "flag"@,
            Kind::LocationKw => "location"@,
            Kind::ElidableAxisValueNameKw => "ElidableAxisValueName"@,
            Kind::OlderSiblingFontAttributeKw => "OlderSiblingFontAttribute"@,
            Kind::LigatureKw => "LigatureKw"@,
            Kind::BaseKw => "BaseKw"@,
            Kind::GlyphRange => "GlyphRange"@,
            Kind::Metric => "METRIC"@,
            Kind::Label => "LABEL"@,
            Kind::Tag => "Tag"@,
            Kind::Path => "Path"@,
            Kind::GlyphName => "GlyphName"@,
            Kind::GlyphClass => "GlyphClass"@,
            Kind::TableEntryNode => "TableEntryNode"@,
            Kind::GposNode => "GposNode"@,
            Kind::GsubNode => "GsubNode"@,
            Kind::AnchorMarkNode => "AnchorMarkNode"@,
            Kind::ValueRecordNode => "ValueRecordNode"@,
            Kind::LookupRefNode => "LookupRefNode"@,
            Kind::LookupBlockNode => "LookupBlockNode"@,
            Kind::ScriptRecordNode => "ScriptRecoordNode"@,
        }
    }

    /// See [`Kind::text`].
    pub fn to_string(&self) -> (text: String)
        ensures
            text@ == self.text(),
    {
        match self {
            Kind::Tombstone => "X_X".to_owned(),
            Kind::Eof => "EOF".to_owned(),
            Kind::SourceFile => "FILE".to_owned(),
            Kind::Ident => "ID".to_owned(),
            Kind::String => "STR".to_owned(),
            Kind::StringUnterminated => "STR OPEN".to_owned(),
            Kind::Number => "NUM".to_owned(),
            Kind::Octal => "OCT".to_owned(),
            Kind::Hex => "HEX".to_owned(),
            Kind::HexEmpty => "HEX EMPTY".to_owned(),
            Kind::Float => "FLOAT".to_owned(),
            Kind::Whitespace => "WS".to_owned(),
            Kind::Comment => "#".to_owned(),
            Kind::Semi => ";".to_owned(),
            Kind::Comma => ",".to_owned(),
            Kind::Backslash => "\\".to_owned(),
            Kind::Hyphen => "-".to_owned(),
            Kind::Eq => "=".to_owned(),
            Kind::LBrace => "{".to_owned(),
            Kind::RBrace => "}".to_owned(),
            Kind::LSquare => "[".to_owned(),
            Kind::RSquare => "]".to_owned(),
            Kind::LParen => "(".to_owned(),
            Kind::RParen => ")".to_owned(),
            Kind::LAngle => "<".to_owned(),
            Kind::RAngle => ">".to_owned(),
            Kind::SingleQuote => "'".to_owned(),
            Kind::NamedGlyphClass => "@GlyphClass".to_owned(),
            Kind::Cid => "CID".to_owned(),
            Kind::TableKw => "TableKw".to_owned(),
            Kind::LookupKw => "LookupKw".to_owned(),
            Kind::LanguagesystemKw => "LanguagesystemKw".to_owned(),
            Kind::AnchorDefKw => "AnchorDefKw".to_owned(),
            Kind::FeatureKw => "FeatureKw".to_owned(),
            Kind::MarkClassKw => "MarkClassKw".to_owned(),
            Kind::AnonKw => "AnonKw".to_owned(),
            Kind::AnchorKw => "AnchorKw".to_owned(),
            Kind::ByKw => "ByKw".to_owned(),
            Kind::ContourpointKw => "ContourpointKw".to_owned(),
            Kind::CursiveKw => "CursiveKw".to_owned(),
            Kind::DeviceKw => "DeviceKw".to_owned(),
            Kind::EnumKw => "EnumKw".to_owned(),
            Kind::ExcludeDfltKw => "ExcludeDfltKw".to_owned(),
            Kind::FromKw => "FromKw".to_owned(),
            Kind::IgnoreKw => "IgnoreKw".to_owned(),
            Kind::IgnoreBaseGlyphsKw => "IgnoreBaseGlyphsKw".to_owned(),
            Kind::IgnoreLigaturesKw => "IgnoreLigaturesKw".to_owned(),
            Kind::IgnoreMarksKw => "IgnoreMarksKw".to_owned(),
            Kind::IncludeKw => "IncludeKw".to_owned(),
            Kind::IncludeDfltKw => "IncludeDfltKw".to_owned(),
            Kind::LanguageKw => "LanguageKw".to_owned(),
            Kind::LookupflagKw => "LookupflagKw".to_owned(),
            Kind::MarkKw => "MarkKw".to_owned(),
            Kind::MarkAttachmentTypeKw => "MarkAttachmentTypeKw".to_owned(),
            Kind::NameIdKw => "NameIdKw".to_owned(),
            Kind::NullKw => "NullKw".to_owned(),
            Kind::ParametersKw => "ParametersKw".to_owned(),
            Kind::PosKw => "PosKw".to_owned(),
            Kind::RequiredKw => "RequiredKw".to_owned(),
            Kind::RightToLeftKw => "RightToLeftKw".to_owned(),
            Kind::RsubKw => "RsubKw".to_owned(),
            Kind::ScriptKw => "ScriptKw".to_owned(),
            Kind::SubKw => "SubKw".to_owned(),
            Kind::SubtableKw => "SubtableKw".to_owned(),
            Kind::UseExtensionKw => "UseExtensionKw".to_owned(),
            Kind::UseMarkFilteringSetKw => "UseMarkFilteringSetKw".to_owned(),
            Kind::ValueRecordDefKw => "ValueRecordDefKw".to_owned(),
            Kind::HorizAxisBaseScriptListKw => "HorizAxis.BaseScriptList".to_owned(),
            Kind::HorizAxisBaseTagListKw => "HorizAxis.BaseTagList".to_owned(),
            Kind::HorizAxisMinMaxKw => "HorizAxis.MinMax".to_owned(),
            Kind::VertAxisBaseScriptListKw => "VertAxis.BaseScriptList".to_owned(),
            Kind::VertAxisBaseTagListKw => "VertAxis.BaseTagList".to_owned(),
            Kind::VertAxisMinMaxKw => "VertAxis.MinMax".to_owned(),
            Kind::AttachKw => "Attach".to_owned(),
            Kind::GlyphClassDefKw => "GlyphClassDef".to_owned(),
            Kind::LigatureCaretByDevKw => "LigatureCaretByDev".to_owned(),
            Kind::LigatureCaretByIndexKw => "LigatureCaretByIndex".to_owned(),
            Kind::LigatureCaretByPosKw => "LigatureCaretByPos".to_owned(),
            Kind::MarkAttachClassKw => "MarkAttachClass".to_owned(),
            Kind::FontRevisionKw => "FontRevision".to_owned(),
            Kind::AscenderKw => "Ascender".to_owned(),
            Kind::CaretOffsetKw => "CaretOffset".to_owned(),
            Kind::DescenderKw => "Descender".to_owned(),
            Kind::LineGapKw => "LineGap".to_owned(),
            Kind::CapHeightKw => "CapHeight".to_owned(),
            Kind::CodePageRangeKw => "CodePageRange".to_owned(),
            Kind::PanoseKw => "Panose".to_owned(),
            Kind::TypoAscenderKw => "TypoAscender".to_owned(),
            Kind::TypoDescenderKw => "TypoDescender".to_owned(),
            Kind::TypoLineGapKw => "TypoLineGap".to_owned(),
            Kind::UnicodeRangeKw => "UnicodeRange".to_owned(),
            Kind::VendorKw => "Vendor".to_owned(),
            Kind::WinAscentKw => "winAscent".to_owned(),
            Kind::WinDescentKw => "winDescent".to_owned(),
            Kind::XHeightKw => "XHeight".to_owned(),
            Kind::SizemenunameKw => "sizemenuname".to_owned(),
            Kind::VertTypoAscenderKw => "VertTypoAscender".to_owned(),
            Kind::VertTypoDescenderKw => "VertTypoDescender".to_owned(),
            Kind::VertTypoLineGapKw => "VertTypoLineGap".to_owned(),
            Kind::VertAdvanceYKw => "VertAdvanceY".to_owned(),
            Kind::VertOriginYKw => "VertOriginY".to_owned(),
            Kind::ElidedFallbackNameKw => "ElidedFallbackName".to_owned(),
            Kind::ElidedFallbackNameIDKw => "ElidedFallbackNameID".to_owned(),
            Kind::DesignAxisKw => "DesignAxis".to_owned(),
            Kind::AxisValueKw => "AxisValue".to_owned(),
            Kind::FlagKw => "flag".to_owned(),
            Kind::LocationKw => "location".to_owned(),
            Kind::ElidableAxisValueNameKw => "ElidableAxisValueName".to_owned(),
            Kind::OlderSiblingFontAttributeKw => "OlderSiblingFontAttribute".to_owned(),
            Kind::LigatureKw => "LigatureKw".to_owned(),
            Kind::BaseKw => "BaseKw".to_owned(),
            Kind::GlyphRange => "GlyphRange".to_owned(),
            Kind::Metric => "METRIC".to_owned(),
            Kind::Label => "LABEL".to_owned(),
            Kind::Tag => "Tag".to_owned(),
            Kind::Path => "Path".to_owned(),
            Kind::GlyphName => "GlyphName".to_owned(),
            Kind::GlyphClass => "GlyphClass".to_owned(),
            Kind::TableEntryNode => "TableEntryNode".to_owned(),
            Kind::GposNode => "GposNode".to_owned(),
            Kind::GsubNode => "GsubNode".to_owned(),
            Kind::AnchorMarkNode => "AnchorMarkNode".to_owned(),
            Kind::ValueRecordNode => "ValueRecordNode".to_owned(),
            Kind::LookupRefNode => "LookupRefNode".to_owned(),
            Kind::LookupBlockNode => "LookupBlockNode".to_owned(),
            Kind::ScriptRecordNode => "ScriptRecoordNode".to_owned(),
        }
    }
}

} // verus!
