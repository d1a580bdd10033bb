use fontmodel::features::{check_diagnostics, Diagnostic, Error, FeatureWork, Level};
use fontmodel::naming::{glyph_identifier, snake_to_camel_case};
use fontmodel::order::{compare_bytes, compare_numbers, compare_strs, Order};
use fontmodel::sorting::{compare_name_lists, contains_name};

#[test]
fn snake_case_becomes_camel_case() {
    assert_eq!(snake_to_camel_case("plist_field_name"), "plistFieldName");
    assert_eq!(snake_to_camel_case("name"), "name");
    assert_eq!(snake_to_camel_case(""), "");
    assert_eq!(snake_to_camel_case("_leading"), "Leading");
    assert_eq!(snake_to_camel_case("trailing_"), "trailing");
    assert_eq!(snake_to_camel_case("double__hump"), "doubleHump");
    assert_eq!(snake_to_camel_case("a_1_b"), "a1B");
    assert_eq!(snake_to_camel_case("already_Upper"), "alreadyUpper");
    assert_eq!(snake_to_camel_case("x_z_a"), "xZA");
    // only the letters of ASCII are put in upper case
    assert_eq!(snake_to_camel_case("caf_\u{e9}"), "caf\u{e9}");
    assert_eq!(snake_to_camel_case("_{_`"), "{`");
}

#[test]
fn glyphs_are_tracked_under_their_names() {
    assert_eq!(glyph_identifier("space"), "/glyph/space");
    assert_eq!(glyph_identifier(""), "/glyph/");
    assert_eq!(glyph_identifier("a/b"), "/glyph/a/b");
}

fn diagnostic(level: Level) -> Diagnostic {
    Diagnostic {
        level,
        text: "text".to_string(),
    }
}

#[test]
fn diagnostics_fail_on_an_error() {
    assert!(check_diagnostics("Memory", "compile", &Vec::new()).is_ok());
    let harmless = vec![diagnostic(Level::Warning), diagnostic(Level::Info)];
    assert!(check_diagnostics("Memory", "compile", &harmless).is_ok());
    let grave = vec![
        diagnostic(Level::Warning),
        diagnostic(Level::Error),
        diagnostic(Level::Error),
    ];
    match check_diagnostics("\"Memory\"", "generate parse tree", &grave) {
        Err(Error::FeaError(text)) => assert_eq!(text, "\"Memory\" generate parse tree failed"),
        Ok(()) => panic!("an error went unnoticed"),
    }
    assert!(diagnostic(Level::Error).is_error());
    assert!(!diagnostic(Level::Warning).is_error());
    assert!(!diagnostic(Level::Info).is_error());
}

#[test]
fn feature_work_knows_its_directory() {
    let work = FeatureWork::create("build/features");
    assert_eq!(work.build_dir(), "build/features");
}

#[test]
fn names_are_ordered_by_their_bytes() {
    assert_eq!(compare_strs("wdth", "wght"), Order::Less);
    assert_eq!(compare_strs("wght", "wdth"), Order::Greater);
    assert_eq!(compare_strs("wght", "wght"), Order::Equal);
    assert_eq!(compare_strs("", "a"), Order::Less);
    assert_eq!(compare_strs("Weight", "Weigh"), Order::Greater);
    assert_eq!(compare_strs("Width", "italic"), Order::Less);
    assert_eq!(compare_strs("z", "\u{e9}"), Order::Less);
    assert_eq!(compare_bytes(b"\xff", b"\x00\xff"), Order::Greater);
    assert_eq!(compare_bytes(b"", b""), Order::Equal);
}

#[test]
fn sequences_are_ordered_by_their_first_difference() {
    assert_eq!(compare_numbers(&vec![1, 2, 3], &vec![1, 2, 3]), Order::Equal);
    assert_eq!(compare_numbers(&vec![1, 2], &vec![1, 2, 3]), Order::Less);
    assert_eq!(compare_numbers(&vec![1, 3], &vec![1, 2, 3]), Order::Greater);
    assert_eq!(compare_numbers(&vec![-1], &vec![0]), Order::Less);
    assert_eq!(compare_numbers(&vec![], &vec![]), Order::Equal);
    let names = |list: &[&str]| list.iter().map(|name| name.to_string()).collect::<Vec<_>>();
    assert_eq!(
        compare_name_lists(&names(&["a", "b"]), &names(&["a", "b"])),
        Order::Equal
    );
    assert_eq!(
        compare_name_lists(&names(&["a"]), &names(&["a", "b"])),
        Order::Less
    );
    assert_eq!(
        compare_name_lists(&names(&["a", "c"]), &names(&["a", "b", "z"])),
        Order::Greater
    );
    assert!(contains_name(&names(&["a", "b"]), "b"));
    assert!(!contains_name(&names(&["a", "b"]), "ab"));
}
