use csdocgen::parser::AccessModifier;
use csdocgen::parser::ConstructType;
use csdocgen::parser::DocstringExtractor;
use csdocgen::parser::extract_access_modifier;
use csdocgen::parser::extract_definition;
use csdocgen::parser::skip_due_to_comment;

#[test]
fn test_construct_type_as_lowercase() {
    assert_eq!(ConstructType::Class.as_lowercase(), "class");
    assert_eq!(ConstructType::Struct.as_lowercase(), "struct");
    assert_eq!(ConstructType::Enum.as_lowercase(), "enum");
    assert_eq!(ConstructType::Interface.as_lowercase(), "interface");
}

#[test]
fn test_access_modifier_variants_as_regex() {
    let regex_pattern = AccessModifier::variants_as_regex();
    assert!(regex::Regex::new(&regex_pattern).is_ok());
}

#[test]
fn test_extract_definition() {
    let line = "public class MyClass";
    let keyword = "class";
    let result = extract_definition(line, keyword);
    assert_eq!(result, Some("MyClass".to_string()))
}

#[test]
fn test_extract_access_modifier() {
    assert_eq!(
        extract_access_modifier("public class MyClass"),
        AccessModifier::Public
    );
    assert_eq!(
        extract_access_modifier("private class MyClass"),
        AccessModifier::Private
    );
    assert_eq!(
        extract_access_modifier("protected class MyClass"),
        AccessModifier::Protected
    );
    assert_eq!(
        extract_access_modifier("internal class MyClass"),
        AccessModifier::Internal
    );
}

#[test]
fn test_extract_single_line_docstring() {
    let mut extractor = DocstringExtractor::new();
    let line = "/// <summary>This is a single-line summary</summary>";
    assert_eq!(
        extractor.extract_docstring(line),
        Some("This is a single-line summary".to_string())
    );
}

#[test]
fn test_extract_multi_line_docstring() {
    let mut extractor = DocstringExtractor::new();
    let lines = vec![
        "/// <summary>",
        "/// This is a multi-line",
        "/// summary",
        "/// </summary>",
    ];
    let mut result = None;
    for line in lines {
        result = extractor.extract_docstring(line);
    }
    assert_eq!(result, Some("This is a multi-line summary".to_string()));
}

#[test]
fn test_extract_single_line_inside_multi_line_docstring() {
    let mut extractor = DocstringExtractor::new();
    let lines = vec![
        "/// <summary>This is a single-line summary inside multi-line",
        "/// but not ended yet",
        "/// </summary>",
    ];
    let mut result = None;
    for line in lines {
        result = extractor.extract_docstring(line);
    }
    assert_eq!(
        result,
        Some("This is a single-line summary inside multi-line but not ended yet".to_string())
    );
}

#[test]
fn test_skip_due_to_comment() {
    let mut inside_multiline_comment = false;

    // Test single-line comment
    let line = "// This is a single-line comment";
    assert!(skip_due_to_comment(line, &mut inside_multiline_comment));
    assert!(!inside_multiline_comment);

    // Test XML documentation comment
    let line = "/// This is an XML doc comment";
    assert!(skip_due_to_comment(line, &mut inside_multiline_comment));
    assert!(!inside_multiline_comment);

    // Test multi-line comment start and end on the same line
    let line = "/* This is a multi-line comment */";
    assert!(skip_due_to_comment(line, &mut inside_multiline_comment));
    assert!(!inside_multiline_comment);

    // Test multi-line comment start
    let line = "/* This is a multi-line comment";
    assert!(skip_due_to_comment(line, &mut inside_multiline_comment));
    assert!(inside_multiline_comment);

    // Test multi-line comment end
    let line = "still in multi-line comment */";
    assert!(skip_due_to_comment(line, &mut inside_multiline_comment));
    assert!(!inside_multiline_comment);

    // Test line with construct type and comment after it
    let line = "public class MyClass // This is a comment";
    assert!(!skip_due_to_comment(line, &mut inside_multiline_comment));
    assert!(!inside_multiline_comment);

    // Test line with construct type and comment before it
    let line = "// This is a comment before class definition\npublic class MyClass";
    assert!(skip_due_to_comment(line, &mut inside_multiline_comment));
    assert!(!inside_multiline_comment);

    // Test line with construct type and no comment
    let line = "public class MyClass";
    assert!(!skip_due_to_comment(line, &mut inside_multiline_comment));
    assert!(!inside_multiline_comment);

    // Test line with construct type and comment before keyword for other construct types
    let line = "public struct MyStruct // Comment";
    assert!(!skip_due_to_comment(line, &mut inside_multiline_comment));
    assert!(!inside_multiline_comment);

    let line = "public enum MyEnum // Comment";
    assert!(!skip_due_to_comment(line, &mut inside_multiline_comment));
    assert!(!inside_multiline_comment);

    let line = "public interface MyInterface // Comment";
    assert!(!skip_due_to_comment(line, &mut inside_multiline_comment));
    assert!(!inside_multiline_comment);
}
