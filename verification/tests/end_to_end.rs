use csdocgen::documentation::render_documentation;
use csdocgen::parser::AccessModifier;
use csdocgen::parser::ConstructType;
use csdocgen::parser::parse_cs_files;

#[test]
fn test_parse_single_class_content() {
    let constructs = parse_cs_files(vec!["public class MyClass { }".to_string()]);
    assert_eq!(constructs.len(), 1);
    assert_eq!(constructs[0].name, "MyClass");
    assert_eq!(constructs[0].construct_type, ConstructType::Class);
    assert_eq!(constructs[0].access_modifier, AccessModifier::Public);
    assert_eq!(constructs[0].docstring, None);
}

#[test]
fn test_qualifier_defaults_to_private() {
    let constructs = parse_cs_files(vec!["class Quiet { }".to_string()]);
    assert_eq!(constructs.len(), 1);
    assert_eq!(constructs[0].name, "Quiet");
    assert_eq!(constructs[0].access_modifier, AccessModifier::Private);
}

#[test]
fn test_each_qualifier_is_detected() {
    let content = "public class A {}\nprivate class B {}\nprotected class C {}\ninternal class D {}\n";
    let constructs = parse_cs_files(vec![content.to_string()]);
    assert_eq!(constructs.len(), 4);
    assert_eq!(constructs[0].access_modifier, AccessModifier::Public);
    assert_eq!(constructs[1].access_modifier, AccessModifier::Private);
    assert_eq!(constructs[2].access_modifier, AccessModifier::Protected);
    assert_eq!(constructs[3].access_modifier, AccessModifier::Internal);
}

#[test]
fn test_class_deduplicated_across_files() {
    let f1 = "public class X { }".to_string();
    let f2 = "public class X { }".to_string();
    let constructs = parse_cs_files(vec![f1, f2]);
    assert_eq!(constructs.len(), 1);
    assert_eq!(constructs[0].name, "X");
}

#[test]
fn test_struct_never_deduplicated() {
    let f1 = "public struct X { }".to_string();
    let f2 = "public struct X { }".to_string();
    let constructs = parse_cs_files(vec![f1, f2]);
    assert_eq!(constructs.len(), 2);
    assert_eq!(constructs[0].name, "X");
    assert_eq!(constructs[1].name, "X");
    assert_eq!(constructs[0].construct_type, ConstructType::Struct);
    assert_eq!(constructs[1].construct_type, ConstructType::Struct);
}

#[test]
fn test_trailing_comment_still_matches() {
    let constructs = parse_cs_files(vec!["public class Widget // trailing comment".to_string()]);
    assert_eq!(constructs.len(), 1);
    assert_eq!(constructs[0].name, "Widget");
}

#[test]
fn test_leading_comment_suppresses_match() {
    let constructs = parse_cs_files(vec!["// leading comment public class Widget".to_string()]);
    assert_eq!(constructs.len(), 0);
}

#[test]
fn test_block_comment_suppresses_until_closed() {
    let content = "/*\npublic class Hidden { }\n*/\npublic class Shown { }\n";
    let constructs = parse_cs_files(vec![content.to_string()]);
    assert_eq!(constructs.len(), 1);
    assert_eq!(constructs[0].name, "Shown");
}

#[test]
fn test_summary_attached_to_next_construct() {
    let content = "/// <summary>\n/// Represents a widget.\n/// </summary>\npublic class Widget {}\n";
    let constructs = parse_cs_files(vec![content.to_string()]);
    assert_eq!(constructs.len(), 1);
    assert_eq!(constructs[0].docstring, Some("Represents a widget.".to_string()));
}

#[test]
fn test_two_summaries_concatenated() {
    let content = "/// <summary>First part.</summary>\n/// <summary>Second part.</summary>\npublic class Both {}\n";
    let constructs = parse_cs_files(vec![content.to_string()]);
    assert_eq!(constructs.len(), 1);
    assert_eq!(
        constructs[0].docstring,
        Some("First part. Second part.".to_string())
    );
}

#[test]
fn test_matching_priority_class_first() {
    let constructs = parse_cs_files(vec!["public class Outer struct Inner".to_string()]);
    assert_eq!(constructs.len(), 1);
    assert_eq!(constructs[0].construct_type, ConstructType::Class);
    assert_eq!(constructs[0].name, "Outer");
}

#[test]
fn test_end_to_end_widget_documentation() {
    let content = "/// <summary>\n/// Represents a widget.\n/// </summary>\npublic class Widget {}\n";
    let template = "## Classes\n- {{class}}: [one_sentence_summary]\n";
    let constructs = parse_cs_files(vec![content.to_string()]);
    let output = render_documentation(constructs, template);
    assert_eq!(output, "## Classes\n- Widget: Represents a widget\n");
}

#[test]
fn test_unbalanced_closing_tag_is_harmless() {
    let content = "/// stray text</summary>\n/// more text\npublic class After {}\n";
    let constructs = parse_cs_files(vec![content.to_string()]);
    assert_eq!(constructs.len(), 1);
    assert_eq!(constructs[0].docstring, Some("stray text".to_string()));
}

#[test]
fn test_empty_input_and_empty_template() {
    let constructs = parse_cs_files(Vec::new());
    assert_eq!(constructs.len(), 0);
    let output = render_documentation(constructs, "");
    assert_eq!(output, "");
}
