use x11rb::files::generate;
use x11rb::files::NamespaceText;
use x11rb::generator::camel_case_to_lower_snake;
use x11rb::generator::camel_case_to_snake;
use x11rb::generator::camel_case_to_upper_snake;
use x11rb::generator::ext_has_feature;
use x11rb::generator::is_identifier_str;
use x11rb::generator::write_code_header;
use x11rb::generator::Output;

const HEADER: &str =
    "// This file contains generated code. Do not edit directly.\n// To regenerate this, run 'make'.\n\n";

#[test]
fn core_namespaces_have_no_feature() {
    for name in ["bigreq", "ge", "xc_misc", "xproto"] {
        assert!(!ext_has_feature(name));
    }
}

#[test]
fn extension_namespaces_have_a_feature() {
    for name in ["shm", "randr", "", "xproto2", "Xproto", "g", "bigre"] {
        assert!(ext_has_feature(name));
    }
}

#[test]
fn code_header_is_two_comment_lines_and_an_empty_one() {
    let mut out = Output::new();
    write_code_header(&mut out);
    assert_eq!(out.into_data(), HEADER);
}

#[test]
fn code_header_goes_after_what_was_written() {
    let mut out = Output::new();
    out.outln("first");
    out.out("second");
    write_code_header(&mut out);
    assert_eq!(out.into_data(), format!("first\nsecond{}", HEADER));
}

#[test]
fn snake_of_camel_case_words() {
    assert_eq!(camel_case_to_snake("CamelCase"), "Camel_Case");
    assert_eq!(camel_case_to_snake("QueryVersion"), "Query_Version");
    assert_eq!(camel_case_to_snake("camelCase"), "camel_Case");
    assert_eq!(camel_case_to_snake("Word"), "Word");
    assert_eq!(camel_case_to_snake("word"), "word");
}

#[test]
fn snake_of_upper_case_runs() {
    assert_eq!(camel_case_to_snake("ABC"), "ABC");
    assert_eq!(camel_case_to_snake("XMLHttpRequest"), "XML_Http_Request");
    assert_eq!(camel_case_to_snake("GetXIDRange"), "Get_XID_Range");
    assert_eq!(camel_case_to_snake("ABc"), "A_Bc");
    assert_eq!(camel_case_to_snake("AB1"), "A_B1");
    assert_eq!(camel_case_to_snake("DECnet"), "DE_Cnet");
}

#[test]
fn snake_of_digits() {
    assert_eq!(camel_case_to_snake("A1B"), "A1_B");
    assert_eq!(camel_case_to_snake("1A"), "1_A");
    assert_eq!(camel_case_to_snake("Point2D"), "Point2_D");
    assert_eq!(camel_case_to_snake("abc123def"), "abc123def");
    assert_eq!(camel_case_to_snake("Int64"), "Int64");
    assert_eq!(camel_case_to_snake("CARD8"), "CAR_D8");
}

#[test]
fn snake_of_underscores() {
    assert_eq!(camel_case_to_snake(""), "");
    assert_eq!(camel_case_to_snake("_"), "");
    assert_eq!(camel_case_to_snake("___"), "");
    assert_eq!(camel_case_to_snake("foo_bar"), "foo_bar");
    assert_eq!(camel_case_to_snake("_foo__Bar_"), "foo_Bar");
    assert_eq!(camel_case_to_snake("A_B"), "A_B");
    assert_eq!(camel_case_to_snake("AB_c"), "AB_c");
    assert_eq!(camel_case_to_snake("xc_misc"), "xc_misc");
}

#[test]
fn lower_snake() {
    assert_eq!(camel_case_to_lower_snake("QueryVersion"), "query_version");
    assert_eq!(camel_case_to_lower_snake("XMLHttpRequest"), "xml_http_request");
    assert_eq!(camel_case_to_lower_snake("GetXIDRange"), "get_xid_range");
    assert_eq!(camel_case_to_lower_snake("Point2D"), "point2_d");
    assert_eq!(camel_case_to_lower_snake(""), "");
}

#[test]
fn upper_snake() {
    assert_eq!(camel_case_to_upper_snake("QueryVersion"), "QUERY_VERSION");
    assert_eq!(camel_case_to_upper_snake("XMLHttpRequest"), "XML_HTTP_REQUEST");
    assert_eq!(camel_case_to_upper_snake("camelCase9"), "CAMEL_CASE9");
    assert_eq!(camel_case_to_upper_snake("_"), "");
}

#[test]
fn identifiers_are_ascii_letters_digits_and_underscores() {
    assert!(is_identifier_str(""));
    assert!(is_identifier_str("Az09_"));
    assert!(!is_identifier_str("a-b"));
    assert!(!is_identifier_str("a b"));
    assert!(!is_identifier_str("caf\u{e9}"));
    assert!(!is_identifier_str("@"));
    assert!(!is_identifier_str("["));
    assert!(!is_identifier_str("`"));
    assert!(!is_identifier_str("{"));
    assert!(!is_identifier_str("/"));
    assert!(!is_identifier_str(":"));
}

fn namespace(header: &str, text: &str) -> NamespaceText {
    NamespaceText { header: header.to_string(), text: text.to_string() }
}

#[test]
fn generate_without_namespaces_emits_the_main_module_alone() {
    let files = generate(&Vec::new(), "errors\n");
    assert_eq!(files.len(), 1);
    let expected = format!(
        "{}use std::convert::{{TryFrom, TryInto}};\nuse crate::errors::ParseError;\nuse crate::x11_utils::ExtInfoProvider;\n\n\nerrors\n",
        HEADER
    );
    assert_eq!(files.get("mod.rs"), Some(&expected));
}

#[test]
fn generate_emits_one_file_for_each_namespace_and_declares_it() {
    let namespaces = vec![
        namespace("bigreq", "// bigreq\n"),
        namespace("shm", "// shm\n"),
        namespace("xproto", "// xproto\n"),
    ];
    let files = generate(&namespaces, "// errors and events\n");
    assert_eq!(files.len(), 4);
    assert_eq!(files.get("bigreq.rs").map(String::as_str), Some("// bigreq\n"));
    assert_eq!(files.get("shm.rs").map(String::as_str), Some("// shm\n"));
    assert_eq!(files.get("xproto.rs").map(String::as_str), Some("// xproto\n"));
    let expected = format!(
        "{}{}{}{}",
        HEADER,
        "use std::convert::{TryFrom, TryInto};\nuse crate::errors::ParseError;\nuse crate::x11_utils::ExtInfoProvider;\n\n",
        "pub mod bigreq;\n#[cfg(feature = \"shm\")]\npub mod shm;\npub mod xproto;\n\n",
        "// errors and events\n"
    );
    assert_eq!(files.get("mod.rs"), Some(&expected));
}

#[test]
fn generate_keeps_the_later_text_of_a_repeated_header() {
    let namespaces = vec![namespace("shm", "first"), namespace("shm", "second")];
    let files = generate(&namespaces, "");
    assert_eq!(files.len(), 2);
    assert_eq!(files.get("shm.rs").map(String::as_str), Some("second"));
}

#[test]
fn generate_lets_a_namespace_named_mod_be_replaced_by_the_main_module() {
    let namespaces = vec![namespace("mod", "namespace text")];
    let files = generate(&namespaces, "");
    assert_eq!(files.len(), 1);
    assert!(files.get("mod.rs").unwrap().starts_with(HEADER));
}
