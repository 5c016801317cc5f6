//! The rules that Bazel describes.

use starpls::build_language::{
    attribute_type_string_from_discriminator, decode_rules, rule_value, AttributeDefinition,
    Discriminator, RuleDefinition,
};

#[test]
fn rule_attributes_preserve_requiredness() {
    let rule = RuleDefinition {
        name: "example".to_owned(),
        attribute: [None, Some(false), Some(true)]
            .into_iter()
            .map(|mandatory| AttributeDefinition {
                name: "value".to_owned(),
                ty: 2,
                mandatory,
                documentation: None,
            })
            .collect(),
        documentation: None,
    };
    assert_eq!(rule.attribute[0].discriminator(), Discriminator::Text);
    let callable = rule_value(&rule).callable.expect("expected a callable");
    assert_eq!(
        callable
            .param
            .iter()
            .map(|parameter| parameter.is_mandatory)
            .collect::<Vec<_>>(),
        [false, false, true]
    );
}

/// A field with a length in front of its contents.
fn field(number: u8, contents: &[u8]) -> Vec<u8> {
    let mut out = vec![(number << 3) | 2, contents.len() as u8];
    out.extend_from_slice(contents);
    out
}

#[test]
fn rules_are_decoded_from_their_wire_format() {
    let mut attribute = field(1, b"srcs");
    attribute.extend_from_slice(&[2 << 3, 6, 3 << 3, 1]);
    let mut rule = field(1, b"my_rule");
    rule.extend(field(2, &attribute));
    // A field that is not known is passed over.
    rule.extend_from_slice(&[15 << 3, 0x80, 0x01]);
    let decoded = decode_rules(&field(1, &rule)).unwrap();
    assert_eq!(decoded.rule.len(), 1);
    assert_eq!(decoded.rule[0].name, "my_rule");
    assert_eq!(decoded.rule[0].attribute[0].name, "srcs");
    assert_eq!(decoded.rule[0].attribute[0].ty, 6);
    assert_eq!(decoded.rule[0].attribute[0].mandatory, Some(true));
    assert!(decode_rules(&[0x0a, 0x05, 0x01]).is_err());
    assert!(decode_rules(b"").unwrap().rule.is_empty());
    assert_eq!(
        attribute_type_string_from_discriminator(Discriminator::StringListDict),
        "Dictionary: string -> list of strings"
    );
}
