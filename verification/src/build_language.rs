//! The description of the native rules that `bazel info build-language` prints,
//! a Protocol Buffers message.

use vstd::prelude::*;

use crate::builtins::{Callable, Param, Value};
use crate::lower_spec::text_of;

verus! {

/// The kinds of attribute values, as the message numbers them.
#[derive(Clone, Copy, Debug, PartialEq, Eq, Structural)]
pub enum Discriminator {
    Integer,
    Text,
    Label,
    Output,
    StringList,
    LabelList,
    OutputList,
    DistributionSet,
    License,
    StringDict,
    FilesetEntryList,
    LabelListDict,
    StringListDict,
    Boolean,
    Tristate,
    IntegerList,
    StringDictUnary,
    Unknown,
    LabelDictUnary,
    SelectorList,
    LabelKeyedStringDict,
    DeprecatedStringDictUnary,
}

/// The kind that a number stands for; an unknown number stands for the first.
pub open spec fn discriminator_of(n: i32) -> Discriminator {
    if n == 2 {
        Discriminator::Text
    } else if n == 3 {
        Discriminator::Label
    } else if n == 4 {
        Discriminator::Output
    } else if n == 5 {
        Discriminator::StringList
    } else if n == 6 {
        Discriminator::LabelList
    } else if n == 7 {
        Discriminator::OutputList
    } else if n == 8 {
        Discriminator::DistributionSet
    } else if n == 9 {
        Discriminator::License
    } else if n == 10 {
        Discriminator::StringDict
    } else if n == 11 {
        Discriminator::FilesetEntryList
    } else if n == 12 {
        Discriminator::LabelListDict
    } else if n == 13 {
        Discriminator::StringListDict
    } else if n == 14 {
        Discriminator::Boolean
    } else if n == 15 {
        Discriminator::Tristate
    } else if n == 16 {
        Discriminator::IntegerList
    } else if n == 17 {
        Discriminator::DeprecatedStringDictUnary
    } else if n == 18 {
        Discriminator::StringDictUnary
    } else if n == 19 {
        Discriminator::Unknown
    } else if n == 20 {
        Discriminator::LabelDictUnary
    } else if n == 21 {
        Discriminator::SelectorList
    } else if n == 22 {
        Discriminator::LabelKeyedStringDict
    } else {
        Discriminator::Integer
    }
}

/// An attribute of a native rule.
#[derive(Debug)]
pub struct AttributeDefinition {
    pub name: String,
    pub ty: i32,
    pub mandatory: Option<bool>,
    pub documentation: Option<String>,
}

impl AttributeDefinition {
    /// The kind of the attribute's values.
    pub fn discriminator(&self) -> (r: Discriminator)
        ensures
            r == discriminator_of(self.ty),
    {
        let n = self.ty;
        if n == 2 {
            Discriminator::Text
        } else if n == 3 {
            Discriminator::Label
        } else if n == 4 {
            Discriminator::Output
        } else if n == 5 {
            Discriminator::StringList
        } else if n == 6 {
            Discriminator::LabelList
        } else if n == 7 {
            Discriminator::OutputList
        } else if n == 8 {
            Discriminator::DistributionSet
        } else if n == 9 {
            Discriminator::License
        } else if n == 10 {
            Discriminator::StringDict
        } else if n == 11 {
            Discriminator::FilesetEntryList
        } else if n == 12 {
            Discriminator::LabelListDict
        } else if n == 13 {
            Discriminator::StringListDict
        } else if n == 14 {
            Discriminator::Boolean
        } else if n == 15 {
            Discriminator::Tristate
        } else if n == 16 {
            Discriminator::IntegerList
        } else if n == 17 {
            Discriminator::DeprecatedStringDictUnary
        } else if n == 18 {
            Discriminator::StringDictUnary
        } else if n == 19 {
            Discriminator::Unknown
        } else if n == 20 {
            Discriminator::LabelDictUnary
        } else if n == 21 {
            Discriminator::SelectorList
        } else if n == 22 {
            Discriminator::LabelKeyedStringDict
        } else {
            Discriminator::Integer
        }
    }
}

/// A native rule.
#[derive(Debug)]
pub struct RuleDefinition {
    pub name: String,
    pub attribute: Vec<AttributeDefinition>,
    pub documentation: Option<String>,
}

/// The native rules.
#[derive(Debug)]
pub struct BuildLanguage {
    pub rule: Vec<RuleDefinition>,
}

/// The content of an attribute.
pub struct AttributeView {
    pub name: Seq<char>,
    pub ty: i32,
    pub mandatory: Option<bool>,
    pub documentation: Option<Seq<char>>,
}

/// The content of a rule.
pub struct RuleView {
    pub name: Seq<char>,
    pub attribute: Seq<AttributeView>,
    pub documentation: Option<Seq<char>>,
}

impl View for AttributeDefinition {
    type V = AttributeView;

    open spec fn view(&self) -> AttributeView {
        AttributeView {
            name: self.name@,
            ty: self.ty,
            mandatory: self.mandatory,
            documentation: text_of(self.documentation),
        }
    }
}

impl View for RuleDefinition {
    type V = RuleView;

    open spec fn view(&self) -> RuleView {
        RuleView {
            name: self.name@,
            attribute: Seq::new(self.attribute@.len(), |i: int| self.attribute@[i]@),
            documentation: text_of(self.documentation),
        }
    }
}

/// The contents of rules.
pub open spec fn rule_views(rules: Seq<RuleDefinition>) -> Seq<RuleView> {
    Seq::new(rules.len(), |i: int| rules[i]@)
}

/// A message that cannot be read.
#[verifier::external_type_specification]
#[verifier::external_body]
pub struct ExDecodeError(prost::DecodeError);

/// The field number, the wire type and the number of bytes behind the key with
/// which a message starts, if it starts with one.
pub uninterp spec fn proto_key(bytes: Seq<u8>) -> Option<(u32, u8, nat)>;

/// `prost::encoding::decode_key` reads a field key from the start of the bytes.
/// A key takes at least one byte. How it is encoded is left unsaid.
#[verifier::external_body]
fn read_key(bytes: &[u8]) -> (r: Result<(u32, u8, usize), prost::DecodeError>)
    ensures
        match r {
            Ok((tag, wire, rest)) => {
                &&& proto_key(bytes@) == Some((tag, wire, rest as nat))
                &&& rest < bytes@.len()
            },
            Err(_) => proto_key(bytes@) is None,
        },
{
    let mut buf = bytes;
    let (tag, wire) = prost::encoding::decode_key(&mut buf)?;
    Ok((tag, wire as u8, buf.len()))
}

/// The bytes of a field with the wire type `wire`, and the number of bytes
/// behind it, if the bytes start with such a field.
pub uninterp spec fn proto_bytes(bytes: Seq<u8>, wire: u8) -> Option<(Seq<u8>, nat)>;

/// `prost::encoding::bytes::merge` reads the bytes of a field that says its
/// length, which takes at least one byte itself. How the length is encoded is
/// left unsaid.
#[verifier::external_body]
fn read_bytes(bytes: &[u8], wire: u8) -> (r: Result<(Vec<u8>, usize), prost::DecodeError>)
    ensures
        match r {
            Ok((value, rest)) => {
                &&& proto_bytes(bytes@, wire) == Some((value@, rest as nat))
                &&& value@.len() + rest < bytes@.len()
            },
            Err(_) => proto_bytes(bytes@, wire) is None,
        },
{
    let mut buf = bytes;
    let mut value = Vec::new();
    let wire = prost::encoding::WireType::try_from(u64::from(wire))?;
    prost::encoding::bytes::merge(wire, &mut value, &mut buf, Default::default())?;
    Ok((value, buf.len()))
}

/// The text of a field with the wire type `wire`, and the number of bytes
/// behind it, if the bytes start with such a field.
pub uninterp spec fn proto_string(bytes: Seq<u8>, wire: u8) -> Option<(Seq<char>, nat)>;

/// `prost::encoding::string::merge` reads the text of a field that says its
/// length. How the length is encoded is left unsaid.
#[verifier::external_body]
fn read_string(bytes: &[u8], wire: u8) -> (r: Result<(String, usize), prost::DecodeError>)
    ensures
        match r {
            Ok((value, rest)) => {
                &&& proto_string(bytes@, wire) == Some((value@, rest as nat))
                &&& rest <= bytes@.len()
            },
            Err(_) => proto_string(bytes@, wire) is None,
        },
{
    let mut buf = bytes;
    let mut value = String::new();
    let wire = prost::encoding::WireType::try_from(u64::from(wire))?;
    prost::encoding::string::merge(wire, &mut value, &mut buf, Default::default())?;
    Ok((value, buf.len()))
}

/// The number of a field with the wire type `wire`, and the number of bytes
/// behind it, if the bytes start with such a field.
pub uninterp spec fn proto_int(bytes: Seq<u8>, wire: u8) -> Option<(i32, nat)>;

/// `prost::encoding::int32::merge` reads a number. How it is encoded is left
/// unsaid.
#[verifier::external_body]
fn read_int(bytes: &[u8], wire: u8) -> (r: Result<(i32, usize), prost::DecodeError>)
    ensures
        match r {
            Ok((value, rest)) => {
                &&& proto_int(bytes@, wire) == Some((value, rest as nat))
                &&& rest <= bytes@.len()
            },
            Err(_) => proto_int(bytes@, wire) is None,
        },
{
    let mut buf = bytes;
    let mut value: i32 = 0;
    let wire = prost::encoding::WireType::try_from(u64::from(wire))?;
    prost::encoding::int32::merge(wire, &mut value, &mut buf, Default::default())?;
    Ok((value, buf.len()))
}

/// The truth value of a field with the wire type `wire`, and the number of bytes
/// behind it, if the bytes start with such a field.
pub uninterp spec fn proto_bool(bytes: Seq<u8>, wire: u8) -> Option<(bool, nat)>;

/// `prost::encoding::bool::merge` reads a truth value. How it is encoded is left
/// unsaid.
#[verifier::external_body]
fn read_bool(bytes: &[u8], wire: u8) -> (r: Result<(bool, usize), prost::DecodeError>)
    ensures
        match r {
            Ok((value, rest)) => {
                &&& proto_bool(bytes@, wire) == Some((value, rest as nat))
                &&& rest <= bytes@.len()
            },
            Err(_) => proto_bool(bytes@, wire) is None,
        },
{
    let mut buf = bytes;
    let mut value = false;
    let wire = prost::encoding::WireType::try_from(u64::from(wire))?;
    prost::encoding::bool::merge(wire, &mut value, &mut buf, Default::default())?;
    Ok((value, buf.len()))
}

/// The number of bytes behind a field with the wire type `wire` and the number
/// `tag`, if the bytes start with such a field.
pub uninterp spec fn proto_skip(bytes: Seq<u8>, wire: u8, tag: u32) -> Option<nat>;

/// `prost::encoding::skip_field` steps over a field. How fields are encoded is
/// left unsaid. It follows groups to a depth that is counted from the field itself,
/// whatever message the field stands in: no other count can be handed over.
#[verifier::external_body]
fn skip_field(bytes: &[u8], wire: u8, tag: u32) -> (r: Result<usize, prost::DecodeError>)
    ensures
        match r {
            Ok(rest) => proto_skip(bytes@, wire, tag) == Some(rest as nat) && rest <= bytes@.len(),
            Err(_) => proto_skip(bytes@, wire, tag) is None,
        },
{
    let mut buf = bytes;
    let wire = prost::encoding::WireType::try_from(u64::from(wire))?;
    prost::encoding::skip_field(wire, tag, &mut buf, Default::default())?;
    Ok(buf.len())
}

/// The last `n` bytes.
pub open spec fn last_bytes(bytes: Seq<u8>, n: nat) -> Seq<u8> {
    bytes.skip(bytes.len() - n)
}

/// What a field of an attribute changes, and the bytes behind it.
pub open spec fn attribute_field(
    tag: u32,
    wire: u8,
    bytes: Seq<u8>,
    a: AttributeView,
) -> Option<(AttributeView, nat)> {
    if tag == 1 {
        match proto_string(bytes, wire) {
            Some((name, rest)) => Some((AttributeView { name, ..a }, rest)),
            None => None,
        }
    } else if tag == 2 {
        match proto_int(bytes, wire) {
            Some((ty, rest)) => Some((AttributeView { ty, ..a }, rest)),
            None => None,
        }
    } else if tag == 3 {
        match proto_bool(bytes, wire) {
            Some((mandatory, rest)) => Some(
                (AttributeView { mandatory: Some(mandatory), ..a }, rest),
            ),
            None => None,
        }
    } else if tag == 5 {
        match proto_string(bytes, wire) {
            Some((text, rest)) => Some((AttributeView { documentation: Some(text), ..a }, rest)),
            None => None,
        }
    } else {
        match proto_skip(bytes, wire, tag) {
            Some(rest) => Some((a, rest)),
            None => None,
        }
    }
}

/// The attribute that a message describes, given what its fields so far say.
/// A later field replaces an earlier one; unknown fields are stepped over.
pub open spec fn attribute_from(bytes: Seq<u8>, a: AttributeView) -> Option<AttributeView>
    decreases bytes.len(),
{
    if bytes.len() == 0 {
        Some(a)
    } else {
        match proto_key(bytes) {
            Some((tag, wire, rest)) => if rest < bytes.len() {
                match attribute_field(tag, wire, last_bytes(bytes, rest), a) {
                    Some((next, left)) => if left <= rest {
                        attribute_from(last_bytes(bytes, left), next)
                    } else {
                        None
                    },
                    None => None,
                }
            } else {
                None
            },
            None => None,
        }
    }
}

/// An attribute of which nothing is said: its values are numbers.
pub open spec fn no_attribute() -> AttributeView {
    AttributeView { name: Seq::empty(), ty: 1i32, mandatory: None, documentation: None }
}

/// What a field of a rule changes, and the bytes behind it.
pub open spec fn rule_field(tag: u32, wire: u8, bytes: Seq<u8>, r: RuleView) -> Option<
    (RuleView, nat),
> {
    if tag == 1 {
        match proto_string(bytes, wire) {
            Some((name, rest)) => Some((RuleView { name, ..r }, rest)),
            None => None,
        }
    } else if tag == 2 {
        match proto_bytes(bytes, wire) {
            Some((message, rest)) => match attribute_from(message, no_attribute()) {
                Some(a) => Some((RuleView { attribute: r.attribute.push(a), ..r }, rest)),
                None => None,
            },
            None => None,
        }
    } else if tag == 3 {
        match proto_string(bytes, wire) {
            Some((text, rest)) => Some((RuleView { documentation: Some(text), ..r }, rest)),
            None => None,
        }
    } else {
        match proto_skip(bytes, wire, tag) {
            Some(rest) => Some((r, rest)),
            None => None,
        }
    }
}

/// The rule that a message describes, given what its fields so far say.
pub open spec fn rule_from(bytes: Seq<u8>, r: RuleView) -> Option<RuleView>
    decreases bytes.len(),
{
    if bytes.len() == 0 {
        Some(r)
    } else {
        match proto_key(bytes) {
            Some((tag, wire, rest)) => if rest < bytes.len() {
                match rule_field(tag, wire, last_bytes(bytes, rest), r) {
                    Some((next, left)) => if left <= rest {
                        rule_from(last_bytes(bytes, left), next)
                    } else {
                        None
                    },
                    None => None,
                }
            } else {
                None
            },
            None => None,
        }
    }
}

/// A rule of which nothing is said.
pub open spec fn no_rule() -> RuleView {
    RuleView { name: Seq::empty(), attribute: Seq::empty(), documentation: None }
}

/// What a field of the whole message adds, and the bytes behind it.
pub open spec fn language_field(tag: u32, wire: u8, bytes: Seq<u8>, rules: Seq<RuleView>) -> Option<
    (Seq<RuleView>, nat),
> {
    if tag == 1 {
        match proto_bytes(bytes, wire) {
            Some((message, rest)) => match rule_from(message, no_rule()) {
                Some(rule) => Some((rules.push(rule), rest)),
                None => None,
            },
            None => None,
        }
    } else {
        match proto_skip(bytes, wire, tag) {
            Some(rest) => Some((rules, rest)),
            None => None,
        }
    }
}

/// The rules that a message describes, behind those that it described so far.
pub open spec fn rules_from(bytes: Seq<u8>, rules: Seq<RuleView>) -> Option<Seq<RuleView>>
    decreases bytes.len(),
{
    if bytes.len() == 0 {
        Some(rules)
    } else {
        match proto_key(bytes) {
            Some((tag, wire, rest)) => if rest < bytes.len() {
                match language_field(tag, wire, last_bytes(bytes, rest), rules) {
                    Some((next, left)) => if left <= rest {
                        rules_from(last_bytes(bytes, left), next)
                    } else {
                        None
                    },
                    None => None,
                }
            } else {
                None
            },
            None => None,
        }
    }
}

/// The last `n` bytes of the last `m`.
proof fn last_of_last(bytes: Seq<u8>, m: nat, n: nat)
    requires
        n <= m <= bytes.len(),
    ensures
        last_bytes(last_bytes(bytes, m), n) == last_bytes(bytes, n),
{
    assert(last_bytes(last_bytes(bytes, m), n) =~= last_bytes(bytes, n));
}

/// Reads an attribute.
fn decode_attribute(bytes: &[u8]) -> (r: Result<AttributeDefinition, prost::DecodeError>)
    ensures
        match r {
            Ok(a) => attribute_from(bytes@, no_attribute()) == Some(a@),
            Err(_) => attribute_from(bytes@, no_attribute()) is None,
        },
{
    let mut a = AttributeDefinition {
        name: String::new(),
        ty: 1,
        mandatory: None,
        documentation: None,
    };
    let total: usize = bytes.len();
    let mut left: usize = total;
    proof {
        assert(last_bytes(bytes@, bytes@.len()) =~= bytes@);
        assert(a@ == no_attribute());
    }
    while left > 0
        invariant
            left <= total == bytes@.len(),
            attribute_from(last_bytes(bytes@, left as nat), a@) == attribute_from(
                bytes@,
                no_attribute(),
            ),
        decreases left,
    {
        let message = vstd::slice::slice_subrange(bytes, total - left, total);
        assert(message@ =~= last_bytes(bytes@, left as nat));
        let (tag, wire, rest) = match read_key(message) {
            Ok(key) => key,
            Err(error) => {
                return Err(error);
            },
        };
        let field = vstd::slice::slice_subrange(bytes, total - rest, total);
        proof {
            last_of_last(bytes@, left as nat, rest as nat);
            assert(field@ =~= last_bytes(message@, rest as nat));
        }
        let ghost before = a@;
        let behind: usize;
        if tag == 1 {
            match read_string(field, wire) {
                Ok((name, rest)) => {
                    a.name = name;
                    behind = rest;
                },
                Err(error) => {
                    return Err(error);
                },
            }
        } else if tag == 2 {
            match read_int(field, wire) {
                Ok((ty, rest)) => {
                    a.ty = ty;
                    behind = rest;
                },
                Err(error) => {
                    return Err(error);
                },
            }
        } else if tag == 3 {
            match read_bool(field, wire) {
                Ok((mandatory, rest)) => {
                    a.mandatory = Some(mandatory);
                    behind = rest;
                },
                Err(error) => {
                    return Err(error);
                },
            }
        } else if tag == 5 {
            match read_string(field, wire) {
                Ok((text, rest)) => {
                    a.documentation = Some(text);
                    behind = rest;
                },
                Err(error) => {
                    return Err(error);
                },
            }
        } else {
            match skip_field(field, wire, tag) {
                Ok(rest) => {
                    behind = rest;
                },
                Err(error) => {
                    return Err(error);
                },
            }
        }
        proof {
            last_of_last(bytes@, left as nat, behind as nat);
            assert(attribute_field(tag, wire, field@, before) == Some((a@, behind as nat)));
        }
        left = behind;
    }
    Ok(a)
}

/// Reads a rule.
fn decode_rule(bytes: &[u8]) -> (r: Result<RuleDefinition, prost::DecodeError>)
    ensures
        match r {
            Ok(rule) => rule_from(bytes@, no_rule()) == Some(rule@),
            Err(_) => rule_from(bytes@, no_rule()) is None,
        },
{
    let mut rule = RuleDefinition {
        name: String::new(),
        attribute: Vec::new(),
        documentation: None,
    };
    let total: usize = bytes.len();
    let mut left: usize = total;
    proof {
        assert(last_bytes(bytes@, bytes@.len()) =~= bytes@);
        assert(rule@.attribute =~= Seq::empty());
        assert(rule@ == no_rule());
    }
    while left > 0
        invariant
            left <= total == bytes@.len(),
            rule_from(last_bytes(bytes@, left as nat), rule@) == rule_from(bytes@, no_rule()),
        decreases left,
    {
        let message = vstd::slice::slice_subrange(bytes, total - left, total);
        assert(message@ =~= last_bytes(bytes@, left as nat));
        let (tag, wire, rest) = match read_key(message) {
            Ok(key) => key,
            Err(error) => {
                return Err(error);
            },
        };
        let field = vstd::slice::slice_subrange(bytes, total - rest, total);
        proof {
            last_of_last(bytes@, left as nat, rest as nat);
            assert(field@ =~= last_bytes(message@, rest as nat));
        }
        let ghost before = rule@;
        let behind: usize;
        if tag == 1 {
            match read_string(field, wire) {
                Ok((name, rest)) => {
                    rule.name = name;
                    behind = rest;
                    proof {
                        assert(rule@.attribute =~= before.attribute);
                    }
                },
                Err(error) => {
                    return Err(error);
                },
            }
        } else if tag == 2 {
            match read_bytes(field, wire) {
                Ok((inner, rest)) => {
                    match decode_attribute(inner.as_slice()) {
                        Ok(a) => {
                            let ghost added = a@;
                            rule.attribute.push(a);
                            proof {
                                assert(rule@.attribute =~= before.attribute.push(added));
                            }
                        },
                        Err(error) => {
                            return Err(error);
                        },
                    }
                    behind = rest;
                },
                Err(error) => {
                    return Err(error);
                },
            }
        } else if tag == 3 {
            match read_string(field, wire) {
                Ok((text, rest)) => {
                    rule.documentation = Some(text);
                    behind = rest;
                    proof {
                        assert(rule@.attribute =~= before.attribute);
                    }
                },
                Err(error) => {
                    return Err(error);
                },
            }
        } else {
            match skip_field(field, wire, tag) {
                Ok(rest) => {
                    behind = rest;
                },
                Err(error) => {
                    return Err(error);
                },
            }
        }
        proof {
            last_of_last(bytes@, left as nat, behind as nat);
            assert(rule_field(tag, wire, field@, before) == Some((rule@, behind as nat)));
        }
        left = behind;
    }
    Ok(rule)
}

/// Reads the description of the native rules.
pub fn decode_rules(build_language_output: &[u8]) -> (r: Result<BuildLanguage, prost::DecodeError>)
    ensures
        match r {
            Ok(language) => rules_from(build_language_output@, Seq::empty()) == Some(
                rule_views(language.rule@),
            ),
            Err(_) => rules_from(build_language_output@, Seq::empty()) is None,
        },
{
    let bytes = build_language_output;
    let mut rule: Vec<RuleDefinition> = Vec::new();
    let total: usize = bytes.len();
    let mut left: usize = total;
    proof {
        assert(last_bytes(bytes@, bytes@.len()) =~= bytes@);
        assert(rule_views(rule@) =~= Seq::empty());
    }
    while left > 0
        invariant
            left <= total == bytes@.len(),
            bytes@ == build_language_output@,
            rules_from(last_bytes(bytes@, left as nat), rule_views(rule@)) == rules_from(
                bytes@,
                Seq::empty(),
            ),
        decreases left,
    {
        let message = vstd::slice::slice_subrange(bytes, total - left, total);
        assert(message@ =~= last_bytes(bytes@, left as nat));
        let (tag, wire, rest) = match read_key(message) {
            Ok(key) => key,
            Err(error) => {
                return Err(error);
            },
        };
        let field = vstd::slice::slice_subrange(bytes, total - rest, total);
        proof {
            last_of_last(bytes@, left as nat, rest as nat);
            assert(field@ =~= last_bytes(message@, rest as nat));
        }
        let ghost before = rule_views(rule@);
        let behind: usize;
        if tag == 1 {
            match read_bytes(field, wire) {
                Ok((inner, rest)) => {
                    match decode_rule(inner.as_slice()) {
                        Ok(found) => {
                            let ghost added = found@;
                            rule.push(found);
                            proof {
                                assert(rule_views(rule@) =~= before.push(added));
                            }
                        },
                        Err(error) => {
                            return Err(error);
                        },
                    }
                    behind = rest;
                },
                Err(error) => {
                    return Err(error);
                },
            }
        } else {
            match skip_field(field, wire, tag) {
                Ok(rest) => {
                    behind = rest;
                },
                Err(error) => {
                    return Err(error);
                },
            }
        }
        proof {
            last_of_last(bytes@, left as nat, behind as nat);
            assert(language_field(tag, wire, field@, before) == Some(
                (rule_views(rule@), behind as nat),
            ));
        }
        left = behind;
    }
    Ok(BuildLanguage { rule })
}

/// The documented type of an attribute's values.
pub open spec fn type_text(d: Discriminator) -> Seq<char> {
    match d {
        Discriminator::Integer => "int"@,
        Discriminator::Tristate => "int"@,
        Discriminator::Text => "string"@,
        Discriminator::License => "string"@,
        Discriminator::Label => "Label"@,
        Discriminator::StringList => "List of strings"@,
        Discriminator::DistributionSet => "List of strings"@,
        Discriminator::LabelList => "List of Labels"@,
        Discriminator::Boolean => "boolean"@,
        Discriminator::IntegerList => "List of ints"@,
        Discriminator::LabelListDict => "Dict of Labels"@,
        Discriminator::StringDict => "Dict of strings"@,
        Discriminator::StringListDict => "Dictionary: string -> list of strings"@,
        Discriminator::LabelKeyedStringDict => "Dictionary: Label -> string"@,
        _ => "Unknown"@,
    }
}

/// The documented type of an attribute's values.
pub fn attribute_type_string_from_discriminator(value: Discriminator) -> (r: String)
    ensures
        r@ == type_text(value),
{
    let text = match value {
        Discriminator::Integer => "int",
        Discriminator::Tristate => "int",
        Discriminator::Text => "string",
        Discriminator::License => "string",
        Discriminator::Label => "Label",
        Discriminator::StringList => "List of strings",
        Discriminator::DistributionSet => "List of strings",
        Discriminator::LabelList => "List of Labels",
        Discriminator::Boolean => "boolean",
        Discriminator::IntegerList => "List of ints",
        Discriminator::LabelListDict => "Dict of Labels",
        Discriminator::StringDict => "Dict of strings",
        Discriminator::StringListDict => "Dictionary: string -> list of strings",
        Discriminator::LabelKeyedStringDict => "Dictionary: Label -> string",
        _ => "Unknown",
    };
    text.to_owned()
}

/// Whether an attribute is for the rule itself: its name starts with `$` or `:`.
pub open spec fn is_internal(name: Seq<char>) -> bool {
    name.len() > 0 && (name[0] == '$' || name[0] == ':')
}

/// Whether `p` is the parameter for an attribute.
pub open spec fn attribute_param(a: AttributeDefinition, p: Param) -> bool {
    &&& p.name@ == a.name@
    &&& p.ty@ == type_text(discriminator_of(a.ty))
    &&& p.doc@ == match a.documentation {
        Some(text) => text@,
        None => Seq::empty(),
    }
    &&& p.is_mandatory == (a.mandatory == Some(true))
    &&& p.default_value@.len() == 0
    &&& !p.is_star_arg
    &&& !p.is_star_star_arg
}

/// Whether `params` are the parameters for the attributes that a caller sets.
pub open spec fn attribute_params(attrs: Seq<AttributeDefinition>, params: Seq<Param>) -> bool
    decreases attrs.len(),
{
    if attrs.len() == 0 {
        params.len() == 0
    } else if is_internal(attrs.last().name@) {
        attribute_params(attrs.drop_last(), params)
    } else {
        &&& params.len() > 0
        &&& attribute_param(attrs.last(), params.last())
        &&& attribute_params(attrs.drop_last(), params.drop_last())
    }
}

/// A native rule as a documented value that can be called.
pub fn rule_value(rule: &RuleDefinition) -> (v: Value)
    ensures
        v.name@ == rule.name@,
        v.ty@.len() == 0,
        v.doc@ == match rule.documentation {
            Some(text) => text@,
            None => Seq::empty(),
        },
        v.callable is Some,
        v.callable->0.return_type@ == "None"@,
        attribute_params(rule.attribute@, v.callable->0.param@),
{
    let mut param: Vec<Param> = Vec::new();
    let mut i: usize = 0;
    while i < rule.attribute.len()
        invariant
            i <= rule.attribute@.len(),
            attribute_params(rule.attribute@.take(i as int), param@),
        decreases rule.attribute@.len() - i,
    {
        let a = &rule.attribute[i];
        let ghost taken = rule.attribute@.take(i + 1);
        let ghost earlier = param@;
        proof {
            assert(taken.drop_last() =~= rule.attribute@.take(i as int));
            assert(taken.last() == rule.attribute@[i as int]);
        }
        let chars = crate::text::chars_of(a.name.as_str());
        let internal = chars.len() > 0 && (chars[0] == '$' || chars[0] == ':');
        if !internal {
            let doc = match &a.documentation {
                Some(text) => text.clone(),
                None => String::new(),
            };
            let is_mandatory = match a.mandatory {
                Some(value) => value,
                None => false,
            };
            param.push(
                Param {
                    name: a.name.clone(),
                    ty: attribute_type_string_from_discriminator(a.discriminator()),
                    doc,
                    default_value: String::new(),
                    is_mandatory,
                    is_star_arg: false,
                    is_star_star_arg: false,
                },
            );
            proof {
                assert(param@.drop_last() =~= earlier);
            }
        }
        i = i + 1;
    }
    proof {
        assert(rule.attribute@.take(i as int) =~= rule.attribute@);
    }
    let doc = match &rule.documentation {
        Some(text) => text.clone(),
        None => String::new(),
    };
    Value {
        name: rule.name.clone(),
        ty: String::new(),
        callable: Some(Callable { param, return_type: "None".to_owned() }),
        doc,
    }
}

/// The wire type and what stands behind the key, if a message starts with the field
/// `tag`.
pub open spec fn field_behind(bytes: Seq<u8>, tag: u32) -> Option<(u8, Seq<u8>)> {
    match proto_key(bytes) {
        Some((t, wire, rest)) => if t == tag && rest < bytes.len() {
            Some((wire, last_bytes(bytes, rest)))
        } else {
            None
        },
        None => None,
    }
}

/// The bytes behind a field, if it ends in what stood behind its key.
pub open spec fn bytes_behind(behind: Seq<u8>, left: nat) -> Option<Seq<u8>> {
    if left <= behind.len() {
        Some(last_bytes(behind, left))
    } else {
        None
    }
}

/// Whether a message starts with the field `tag` that holds a text, and what follows.
pub open spec fn starts_with_text(bytes: Seq<u8>, tag: u32, text: Seq<char>, rest: Seq<u8>) -> bool {
    field_behind(bytes, tag) matches Some((wire, behind)) && (proto_string(
        behind,
        wire,
    ) matches Some((t, left)) && t == text && bytes_behind(behind, left) == Some(rest))
}

/// Whether a message starts with the field `tag` that holds a number, and what follows.
pub open spec fn starts_with_int(bytes: Seq<u8>, tag: u32, n: i32, rest: Seq<u8>) -> bool {
    field_behind(bytes, tag) matches Some((wire, behind)) && (proto_int(
        behind,
        wire,
    ) matches Some((k, left)) && k == n && bytes_behind(behind, left) == Some(rest))
}

/// Whether a message starts with the field `tag` that says yes or no, and what follows.
pub open spec fn starts_with_bool(bytes: Seq<u8>, tag: u32, yes: bool, rest: Seq<u8>) -> bool {
    field_behind(bytes, tag) matches Some((wire, behind)) && (proto_bool(
        behind,
        wire,
    ) matches Some((b, left)) && b == yes && bytes_behind(behind, left) == Some(rest))
}

/// Whether a message starts with the field `tag` that holds a message, and what
/// follows.
pub open spec fn starts_with_message(
    bytes: Seq<u8>,
    tag: u32,
    message: Seq<u8>,
    rest: Seq<u8>,
) -> bool {
    field_behind(bytes, tag) matches Some((wire, behind)) && (proto_bytes(
        behind,
        wire,
    ) matches Some((m, left)) && m == message && bytes_behind(behind, left) == Some(rest))
}

/// Whether a message holds the last fields of an attribute: its documentation, if it
/// has one.
pub open spec fn ends_with_documentation(bytes: Seq<u8>, tag: u32, text: Option<Seq<char>>) -> bool {
    match text {
        Some(text) => starts_with_text(bytes, tag, text, Seq::empty()),
        None => bytes.len() == 0,
    }
}

/// Whether a message holds an attribute, field by field.
pub open spec fn holds_attribute(bytes: Seq<u8>, a: AttributeView) -> bool {
    exists|second: Seq<u8>, third: Seq<u8>, fourth: Seq<u8>|
        {
            &&& #[trigger] starts_with_text(bytes, 1, a.name, second)
            &&& #[trigger] starts_with_int(second, 2, a.ty, third)
            &&& match a.mandatory {
                Some(mandatory) => starts_with_bool(third, 3, mandatory, fourth),
                None => fourth == third,
            }
            &&& #[trigger] ends_with_documentation(fourth, 5, a.documentation)
        }
}

/// Whether a message holds attributes, one by one, and behind them a documentation, if
/// there is one.
pub open spec fn holds_attributes(
    bytes: Seq<u8>,
    attributes: Seq<AttributeView>,
    documentation: Option<Seq<char>>,
) -> bool
    decreases attributes.len(),
{
    if attributes.len() == 0 {
        ends_with_documentation(bytes, 3, documentation)
    } else {
        exists|message: Seq<u8>, rest: Seq<u8>|
            {
                &&& #[trigger] starts_with_message(bytes, 2, message, rest)
                &&& holds_attribute(message, attributes[0])
                &&& holds_attributes(rest, attributes.drop_first(), documentation)
            }
    }
}

/// Whether a message holds a rule, field by field.
pub open spec fn holds_rule(bytes: Seq<u8>, rule: RuleView) -> bool {
    exists|rest: Seq<u8>|
        #[trigger] starts_with_text(bytes, 1, rule.name, rest) && holds_attributes(
            rest,
            rule.attribute,
            rule.documentation,
        )
}

/// Whether a message holds rules, one by one.
pub open spec fn holds_rules(bytes: Seq<u8>, rules: Seq<RuleView>) -> bool
    decreases rules.len(),
{
    if rules.len() == 0 {
        bytes.len() == 0
    } else {
        exists|message: Seq<u8>, rest: Seq<u8>|
            {
                &&& #[trigger] starts_with_message(bytes, 1, message, rest)
                &&& holds_rule(message, rules[0])
                &&& holds_rules(rest, rules.drop_first())
            }
    }
}

/// The bytes behind a field are the last of the message.
proof fn behind_is_last(bytes: Seq<u8>, rest: nat, left: nat)
    requires
        left <= rest <= bytes.len(),
    ensures
        last_bytes(last_bytes(bytes, rest), left) == last_bytes(bytes, left),
        last_bytes(bytes, rest).len() == rest,
{
    last_of_last(bytes, rest, left);
}

proof fn attribute_is_read(bytes: Seq<u8>, a: AttributeView)
    requires
        holds_attribute(bytes, a),
    ensures
        attribute_from(bytes, no_attribute()) == Some(a),
{
    let (second, third, fourth) = choose|second: Seq<u8>, third: Seq<u8>, fourth: Seq<u8>|
        {
            &&& #[trigger] starts_with_text(bytes, 1, a.name, second)
            &&& #[trigger] starts_with_int(second, 2, a.ty, third)
            &&& match a.mandatory {
                Some(mandatory) => starts_with_bool(third, 3, mandatory, fourth),
                None => fourth == third,
            }
            &&& #[trigger] ends_with_documentation(fourth, 5, a.documentation)
        };
    let first = AttributeView { name: a.name, ..no_attribute() };
    let next = AttributeView { ty: a.ty, ..first };
    let more = AttributeView { mandatory: a.mandatory, ..next };
    attribute_text(bytes, 1, a.name, second, no_attribute());
    attribute_int(second, a.ty, third, first);
    match a.mandatory {
        Some(mandatory) => {
            attribute_bool(third, mandatory, fourth, next);
        },
        None => {},
    }
    match a.documentation {
        Some(text) => {
            attribute_text(fourth, 5, text, Seq::empty(), more);
        },
        None => {},
    }
}

proof fn attribute_text(
    bytes: Seq<u8>,
    tag: u32,
    text: Seq<char>,
    rest: Seq<u8>,
    a: AttributeView,
)
    requires
        starts_with_text(bytes, tag, text, rest),
        tag == 1 || tag == 5,
    ensures
        attribute_from(bytes, a) == attribute_from(
            rest,
            if tag == 1 {
                AttributeView { name: text, ..a }
            } else {
                AttributeView { documentation: Some(text), ..a }
            },
        ),
{
    let (_, wire, n) = proto_key(bytes)->0;
    let (_, left) = proto_string(last_bytes(bytes, n), wire)->0;
    behind_is_last(bytes, n, left);
}

proof fn attribute_int(bytes: Seq<u8>, ty: i32, rest: Seq<u8>, a: AttributeView)
    requires
        starts_with_int(bytes, 2, ty, rest),
    ensures
        attribute_from(bytes, a) == attribute_from(rest, AttributeView { ty, ..a }),
{
    let (_, wire, n) = proto_key(bytes)->0;
    let (_, left) = proto_int(last_bytes(bytes, n), wire)->0;
    behind_is_last(bytes, n, left);
}

proof fn attribute_bool(bytes: Seq<u8>, yes: bool, rest: Seq<u8>, a: AttributeView)
    requires
        starts_with_bool(bytes, 3, yes, rest),
    ensures
        attribute_from(bytes, a) == attribute_from(
            rest,
            AttributeView { mandatory: Some(yes), ..a },
        ),
{
    let (_, wire, n) = proto_key(bytes)->0;
    let (_, left) = proto_bool(last_bytes(bytes, n), wire)->0;
    behind_is_last(bytes, n, left);
}

proof fn rule_text(bytes: Seq<u8>, tag: u32, text: Seq<char>, rest: Seq<u8>, r: RuleView)
    requires
        starts_with_text(bytes, tag, text, rest),
        tag == 1 || tag == 3,
    ensures
        rule_from(bytes, r) == rule_from(
            rest,
            if tag == 1 {
                RuleView { name: text, ..r }
            } else {
                RuleView { documentation: Some(text), ..r }
            },
        ),
{
    let (_, wire, n) = proto_key(bytes)->0;
    let (_, left) = proto_string(last_bytes(bytes, n), wire)->0;
    behind_is_last(bytes, n, left);
}

proof fn attributes_are_read(
    bytes: Seq<u8>,
    attributes: Seq<AttributeView>,
    documentation: Option<Seq<char>>,
    r: RuleView,
)
    requires
        holds_attributes(bytes, attributes, documentation),
        r.documentation is None,
    ensures
        rule_from(bytes, r) == Some(
            RuleView { attribute: r.attribute + attributes, documentation, ..r },
        ),
    decreases attributes.len(),
{
    if attributes.len() == 0 {
        assert(r.attribute + attributes =~= r.attribute);
        match documentation {
            Some(text) => {
                rule_text(bytes, 3, text, Seq::empty(), r);
            },
            None => {},
        }
    } else {
        let (message, rest) = choose|message: Seq<u8>, rest: Seq<u8>|
            {
                &&& #[trigger] starts_with_message(bytes, 2, message, rest)
                &&& holds_attribute(message, attributes[0])
                &&& holds_attributes(rest, attributes.drop_first(), documentation)
            };
        attribute_is_read(message, attributes[0]);
        let (_, wire, n) = proto_key(bytes)->0;
        let (_, left) = proto_bytes(last_bytes(bytes, n), wire)->0;
        behind_is_last(bytes, n, left);
        let more = RuleView { attribute: r.attribute.push(attributes[0]), ..r };
        assert(rule_from(bytes, r) == rule_from(rest, more));
        attributes_are_read(rest, attributes.drop_first(), documentation, more);
        assert(more.attribute + attributes.drop_first() =~= r.attribute + attributes);
    }
}

proof fn rules_are_read(bytes: Seq<u8>, rules: Seq<RuleView>, before: Seq<RuleView>)
    requires
        holds_rules(bytes, rules),
    ensures
        rules_from(bytes, before) == Some(before + rules),
    decreases rules.len(),
{
    if rules.len() == 0 {
        assert(before + rules =~= before);
    } else {
        let (message, rest) = choose|message: Seq<u8>, rest: Seq<u8>|
            {
                &&& #[trigger] starts_with_message(bytes, 1, message, rest)
                &&& holds_rule(message, rules[0])
                &&& holds_rules(rest, rules.drop_first())
            };
        let rule = rules[0];
        let behind_name = choose|behind: Seq<u8>|
            #[trigger] starts_with_text(message, 1, rule.name, behind) && holds_attributes(
                behind,
                rule.attribute,
                rule.documentation,
            );
        rule_text(message, 1, rule.name, behind_name, no_rule());
        attributes_are_read(
            behind_name,
            rule.attribute,
            rule.documentation,
            RuleView { name: rule.name, ..no_rule() },
        );
        assert(no_rule().attribute + rule.attribute =~= rule.attribute);
        assert(rule_from(message, no_rule()) == Some(rule));
        let (_, wire, n) = proto_key(bytes)->0;
        let (_, left) = proto_bytes(last_bytes(bytes, n), wire)->0;
        behind_is_last(bytes, n, left);
        assert(rules_from(bytes, before) == rules_from(rest, before.push(rule)));
        rules_are_read(rest, rules.drop_first(), before.push(rule));
        assert(before.push(rule) + rules.drop_first() =~= before + rules);
    }
}

/// A message that holds rules, each with its name, its attributes and its
/// documentation, field by field as they are written, is read back as those rules;
/// nothing is read back as none.
pub proof fn written_rules_are_read_back(bytes: Seq<u8>, rules: Seq<RuleView>)
    requires
        holds_rules(bytes, rules),
    ensures
        rules_from(bytes, Seq::empty()) == Some(rules),
        rules.len() == 0 <==> bytes.len() == 0,
{
    rules_are_read(bytes, rules, Seq::empty());
    assert(Seq::<RuleView>::empty() + rules =~= rules);
    if rules.len() > 0 {
        let (message, rest) = choose|message: Seq<u8>, rest: Seq<u8>|
            {
                &&& #[trigger] starts_with_message(bytes, 1, message, rest)
                &&& holds_rule(message, rules[0])
                &&& holds_rules(rest, rules.drop_first())
            };
        assert(starts_with_message(bytes, 1, message, rest));
    }
}

} // verus!
