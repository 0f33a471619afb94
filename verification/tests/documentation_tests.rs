use csdocgen::documentation::categorize_constructs;
use csdocgen::documentation::expand_template;
use csdocgen::documentation::substring_until_dot;
use csdocgen::parser::AccessModifier;
use csdocgen::parser::ConstructInfo;
use csdocgen::parser::ConstructType;

#[test]
fn test_expand_template() {
    let template = "
        # Documentation

        ## Classes
        - **{{ class }}**: [one_sentence_summary]

        ## Structs
        - **{{ struct }}**: [one_sentence_summary]

        ## Interfaces
        - **{{ interface }}**: [one_sentence_summary]

        ## Enums
        - **{{ enum }}**: [one_sentence_summary]
        ";

    let constructs = vec![
        ConstructInfo { name: "MyClass".to_string(), docstring: Some("This is a class.".to_string()), access_modifier: AccessModifier::Public, construct_type: ConstructType::Class },
        ConstructInfo { name: "MyStruct".to_string(), docstring: Some("This is a struct.".to_string()), access_modifier: AccessModifier::Public, construct_type: ConstructType::Struct },
        ConstructInfo { name: "MyInterface".to_string(), docstring: Some("This is an interface.".to_string()), access_modifier: AccessModifier::Public, construct_type: ConstructType::Interface },
        ConstructInfo { name: "MyEnum".to_string(), docstring: Some("This is an enum.".to_string()), access_modifier: AccessModifier::Public, construct_type: ConstructType::Enum },
    ];

    let construct_map = categorize_constructs(constructs);
    let result = expand_template(template, &construct_map);
    let expected = "
        # Documentation

        ## Classes
        - **MyClass**: This is a class

        ## Structs
        - **MyStruct**: This is a struct

        ## Interfaces
        - **MyInterface**: This is an interface

        ## Enums
        - **MyEnum**: This is an enum
        ";

    assert_eq!(result.trim(), expected.trim());
}

#[test]
fn test_substring_until_dot() {
    assert_eq!(substring_until_dot("One sentence. And more."), "One sentence");
    assert_eq!(substring_until_dot("no period here"), "no period here");
    assert_eq!(substring_until_dot(""), "");
}

#[test]
fn test_as_placeholder_brackets() {
    assert_eq!(ConstructType::Class.as_placeholder("es"), "[classes]");
    assert_eq!(ConstructType::Struct.as_placeholder(""), "[struct]");
}

#[test]
fn test_variants_as_regex_exact() {
    assert_eq!(
        AccessModifier::variants_as_regex(),
        "(?m)^\\s*(public|private|protected|internal)"
    );
}

#[test]
fn test_template_without_placeholders_unchanged() {
    let template = "# Title\n\nplain text line\n";
    let construct_map = categorize_constructs(vec![ConstructInfo {
        name: "Widget".to_string(),
        docstring: None,
        access_modifier: AccessModifier::Public,
        construct_type: ConstructType::Class,
    }]);
    let result = expand_template(template, &construct_map);
    assert_eq!(result, "# Title\n\nplain text line\n");
}

#[test]
fn test_placeholder_line_with_no_constructs_is_dropped() {
    let template = "## Structs\n- {{struct}}: [summary]\n## End\n";
    let construct_map = categorize_constructs(vec![ConstructInfo {
        name: "Widget".to_string(),
        docstring: None,
        access_modifier: AccessModifier::Public,
        construct_type: ConstructType::Class,
    }]);
    let result = expand_template(template, &construct_map);
    assert_eq!(result, "## Structs\n## End\n");
}

#[test]
fn test_missing_summary_leaves_tokens_as_literals() {
    let template = "- {{class}}: [summary] | [one_sentence_summary]\n";
    let construct_map = categorize_constructs(vec![ConstructInfo {
        name: "Widget".to_string(),
        docstring: None,
        access_modifier: AccessModifier::Private,
        construct_type: ConstructType::Class,
    }]);
    let result = expand_template(template, &construct_map);
    assert_eq!(result, "- Widget: [summary] | [one_sentence_summary]\n");
}

#[test]
fn test_placeholder_line_expands_once_per_construct() {
    let template = "- {{enum}}\n";
    let construct_map = categorize_constructs(vec![
        ConstructInfo {
            name: "ColorKind".to_string(),
            docstring: None,
            access_modifier: AccessModifier::Public,
            construct_type: ConstructType::Enum,
        },
        ConstructInfo {
            name: "ShapeKind".to_string(),
            docstring: None,
            access_modifier: AccessModifier::Public,
            construct_type: ConstructType::Enum,
        },
    ]);
    let result = expand_template(template, &construct_map);
    assert_eq!(result, "- ColorKind\n- ShapeKind\n");
}

#[test]
fn test_only_first_kind_placeholder_honored() {
    let template = "{{class}} and {{struct}}\n";
    let construct_map = categorize_constructs(vec![
        ConstructInfo {
            name: "Widget".to_string(),
            docstring: None,
            access_modifier: AccessModifier::Public,
            construct_type: ConstructType::Class,
        },
        ConstructInfo {
            name: "Point".to_string(),
            docstring: None,
            access_modifier: AccessModifier::Public,
            construct_type: ConstructType::Struct,
        },
    ]);
    let result = expand_template(template, &construct_map);
    assert_eq!(result, "Widget and {{struct}}\n");
}
