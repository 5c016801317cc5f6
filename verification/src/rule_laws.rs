//! What holds of native rules, from the language that Bazel describes to the values that
//! can be called.

use vstd::prelude::*;

use crate::build_language::{
    attribute_params, discriminator_of, is_internal, type_text, AttributeDefinition, Discriminator,
};
use crate::builtins::{documented_type, Param};
use crate::def::TypeShape;
use crate::doc_laws::{
    containers_hold_their_elements, is_single, is_word, other_words_keep_their_names,
    words_are_types,
};
use crate::text::{has_part, occurs_at};

verus! {

/// A rule is called with its attributes, but for those that are for the rule itself: each
/// attribute has its parameter, and each parameter its attribute. It has to be passed
/// exactly if the attribute is mandatory.
pub proof fn rules_are_called_with_their_attributes(
    attrs: Seq<AttributeDefinition>,
    params: Seq<Param>,
    i: int,
    j: int,
)
    requires
        attribute_params(attrs, params),
    ensures
        0 <= i < attrs.len() && !(attrs[i].name@.len() > 0 && (attrs[i].name@[0] == '$'
            || attrs[i].name@[0] == ':')) ==> has_param(params, attrs[i]),
        0 <= j < params.len() ==> has_attribute(attrs, params[j]),
    decreases attrs.len(),
{
    if attrs.len() > 0 {
        let rest = attrs.drop_last();
        let given = !is_internal(attrs.last().name@);
        let fewer = if given {
            params.drop_last()
        } else {
            params
        };
        rules_are_called_with_their_attributes(rest, fewer, i, j);
        if 0 <= i < attrs.len() && !is_internal(attrs[i].name@) {
            if i < rest.len() {
                assert(rest[i] == attrs[i]);
                let k = choose|k: int|
                    0 <= k < fewer.len() && is_param_of(attrs[i], #[trigger] fewer[k]);
                assert(params[k] == fewer[k]);
            } else {
                assert(is_param_of(attrs[i], params[params.len() - 1]));
            }
        }
        if 0 <= j < params.len() {
            if j < fewer.len() {
                assert(fewer[j] == params[j]);
                let k = choose|k: int|
                    0 <= k < rest.len() && !is_internal((#[trigger] rest[k]).name@) && is_param_of(
                        rest[k],
                        params[j],
                    );
                assert(attrs[k] == rest[k]);
            } else {
                assert(is_param_of(attrs[attrs.len() - 1], params[j]));
            }
        }
    }
}

/// Whether a parameter is that of an attribute: it has its name, and is mandatory if the
/// attribute is.
pub open spec fn is_param_of(a: AttributeDefinition, p: Param) -> bool {
    &&& p.name@ == a.name@
    &&& p.is_mandatory <==> a.mandatory == Some(true)
    &&& p.ty@ == type_text(discriminator_of(a.ty))
    &&& !p.is_star_arg && !p.is_star_star_arg
}

/// Whether an attribute has a parameter.
pub open spec fn has_param(params: Seq<Param>, a: AttributeDefinition) -> bool {
    exists|k: int| 0 <= k < params.len() && is_param_of(a, #[trigger] params[k])
}

/// Whether a parameter has an attribute that is not for the rule itself.
pub open spec fn has_attribute(attrs: Seq<AttributeDefinition>, p: Param) -> bool {
    exists|k: int|
        0 <= k < attrs.len() && !is_internal((#[trigger] attrs[k]).name@) && is_param_of(
            attrs[k],
            p,
        )
}

/// A text without spaces is a single word.
proof fn no_spaces_is_a_word(s: Seq<char>)
    requires
        !s.contains(' '),
        !s.contains('<'),
        !s.contains('>'),
    ensures
        is_word(s),
{
    reveal_strlit(" of ");
    reveal_strlit("; or ");
    if has_part(s, " of "@) {
        let at = choose|at: int| occurs_at(s, " of "@, at);
        assert(s.subrange(at, at + 4)[0] == ' ');
        assert(s[at] == ' ');
    }
    if has_part(s, "; or "@) {
        let at = choose|at: int| occurs_at(s, "; or "@, at);
        assert(s.subrange(at, at + 5)[1] == ' ');
        assert(s[at + 1] == ' ');
    }
}

/// A text without semicolons is no list of alternatives.
proof fn no_semicolon_is_single(s: Seq<char>)
    requires
        !s.contains(';'),
        !s.contains('<'),
        !s.contains('>'),
    ensures
        is_single(s),
{
    reveal_strlit("; or ");
    if has_part(s, "; or "@) {
        let at = choose|at: int| occurs_at(s, "; or "@, at);
        assert(s.subrange(at, at + 5)[0] == ';');
        assert(s[at] == ';');
    }
}

/// The values of an attribute have the type of its kind: numbers, strings, labels and
/// booleans, and lists and dictionaries of them.
pub proof fn attributes_have_the_types_of_their_kinds()
    ensures
        documented_type(type_text(Discriminator::Integer)) == TypeShape::Name("int"@, None),
        documented_type(type_text(Discriminator::Text)) == TypeShape::Name("string"@, None),
        documented_type(type_text(Discriminator::Label)) == TypeShape::Name("Label"@, None),
        documented_type(type_text(Discriminator::Boolean)) == TypeShape::Name("bool"@, None),
        documented_type(type_text(Discriminator::StringList)) == TypeShape::Name(
            "list"@,
            Some(seq![TypeShape::Name("string"@, None)]),
        ),
        documented_type(type_text(Discriminator::LabelList)) == TypeShape::Name(
            "list"@,
            Some(seq![TypeShape::Name("Label"@, None)]),
        ),
        documented_type(type_text(Discriminator::IntegerList)) == TypeShape::Name(
            "list"@,
            Some(seq![TypeShape::Name("int"@, None)]),
        ),
        documented_type(type_text(Discriminator::StringDict)) == TypeShape::Name(
            "dict"@,
            Some(seq![TypeShape::Name("string"@, None), TypeShape::Name("string"@, None)]),
        ),
{
    reveal_strlit("int");
    reveal_strlit("string");
    reveal_strlit("Label");
    reveal_strlit("boolean");
    reveal_strlit("List");
    reveal_strlit("Dict");
    reveal_strlit(" of ");
    reveal_strlit("List of strings");
    reveal_strlit("List of Labels");
    reveal_strlit("List of ints");
    reveal_strlit("Dict of strings");
    no_spaces_is_a_word("int"@);
    no_spaces_is_a_word("string"@);
    no_spaces_is_a_word("Label"@);
    no_spaces_is_a_word("boolean"@);
    no_spaces_is_a_word("List"@);
    no_spaces_is_a_word("Dict"@);
    no_spaces_is_a_word("string"@ + seq!['s']);
    no_spaces_is_a_word("Label"@ + seq!['s']);
    no_spaces_is_a_word("int"@ + seq!['s']);
    words_are_types("string"@);
    words_are_types("Label"@);
    words_are_types("boolean"@);
    words_are_types("int"@);
    int_keeps_its_name();
    assert("List of strings"@ =~= "List"@ + " of "@ + ("string"@ + seq!['s']));
    assert("List of Labels"@ =~= "List"@ + " of "@ + ("Label"@ + seq!['s']));
    assert("List of ints"@ =~= "List"@ + " of "@ + ("int"@ + seq!['s']));
    assert("Dict of strings"@ =~= "Dict"@ + " of "@ + ("string"@ + seq!['s']));
    no_semicolon_is_single("List of strings"@);
    no_semicolon_is_single("List of Labels"@);
    no_semicolon_is_single("List of ints"@);
    no_semicolon_is_single("Dict of strings"@);
    containers_hold_their_elements("List"@, "string"@);
    containers_hold_their_elements("List"@, "Label"@);
    containers_hold_their_elements("List"@, "int"@);
    containers_hold_their_elements("Dict"@, "string"@);
}

proof fn int_keeps_its_name()
    ensures
        documented_type("int"@) == TypeShape::Name("int"@, None),
{
    reveal_strlit("int");
    no_spaces_is_a_word("int"@);
    reveal_strlit("Iterable");
    reveal_strlit("iterable");
    reveal_strlit("Sequence");
    reveal_strlit("sequence");
    reveal_strlit("List");
    reveal_strlit("list");
    reveal_strlit("Dict");
    reveal_strlit("dict");
    reveal_strlit("Dictionary");
    reveal_strlit("String");
    reveal_strlit("Boolean");
    reveal_strlit("boolean");
    reveal_strlit("label");
    reveal_strlit("NoneType");
    assert("int"@.len() == 3);
    assert("Iterable"@.len() == 8 && "iterable"@.len() == 8 && "Sequence"@.len() == 8
        && "sequence"@.len() == 8 && "List"@.len() == 4 && "list"@.len() == 4 && "Dict"@.len()
        == 4 && "dict"@.len() == 4 && "Dictionary"@.len() == 10 && "String"@.len() == 6
        && "Boolean"@.len() == 7 && "boolean"@.len() == 7 && "label"@.len() == 5
        && "NoneType"@.len() == 8);
    other_words_keep_their_names("int"@);
}

/// Kinds that hold the same have the same type, and only these.
pub proof fn kinds_share_types(d: Discriminator)
    ensures
        type_text(d) == "int"@ <==> d == Discriminator::Integer || d == Discriminator::Tristate,
        type_text(d) == "string"@ <==> d == Discriminator::Text || d == Discriminator::License,
        type_text(d) == "Label"@ <==> d == Discriminator::Label,
        type_text(d) == "boolean"@ <==> d == Discriminator::Boolean,
        type_text(d) == "List of strings"@ <==> d == Discriminator::StringList || d
            == Discriminator::DistributionSet,
        type_text(d) == "List of Labels"@ <==> d == Discriminator::LabelList,
        type_text(d) == "List of ints"@ <==> d == Discriminator::IntegerList,
        type_text(d) == "Dict of Labels"@ <==> d == Discriminator::LabelListDict,
        type_text(d) == "Dict of strings"@ <==> d == Discriminator::StringDict,
        type_text(d) == "Dictionary: string -> list of strings"@ <==> d
            == Discriminator::StringListDict,
        type_text(d) == "Dictionary: Label -> string"@ <==> d
            == Discriminator::LabelKeyedStringDict,
{
    reveal_strlit("int");
    reveal_strlit("string");
    reveal_strlit("Label");
    reveal_strlit("boolean");
    reveal_strlit("Unknown");
    reveal_strlit("List of strings");
    reveal_strlit("List of Labels");
    reveal_strlit("List of ints");
    reveal_strlit("Dict of Labels");
    reveal_strlit("Dict of strings");
    reveal_strlit("Dictionary: string -> list of strings");
    reveal_strlit("Dictionary: Label -> string");
    assert("int"@.len() == 3 && "string"@.len() == 6 && "Label"@.len() == 5);
    assert("boolean"@.len() == 7 && "Unknown"@.len() == 7 && "boolean"@[0] == 'b' && "Unknown"@[0]
        == 'U');
    assert("List of strings"@.len() == 15 && "Dict of strings"@.len() == 15);
    assert("List of strings"@[0] == 'L' && "Dict of strings"@[0] == 'D');
    assert("List of Labels"@.len() == 14 && "Dict of Labels"@.len() == 14);
    assert("List of Labels"@[0] == 'L' && "Dict of Labels"@[0] == 'D');
    assert("List of ints"@.len() == 12);
    assert("Dictionary: string -> list of strings"@.len() == 37);
    assert("Dictionary: Label -> string"@.len() == 27);
}

/// Every kind of attribute has its own number, and what has none of these is a number.
pub proof fn kinds_of_attributes_have_their_own_numbers(n: i32)
    ensures
        discriminator_of(n) == Discriminator::Text <==> n == 2,
        discriminator_of(n) == Discriminator::Label <==> n == 3,
        discriminator_of(n) == Discriminator::Output <==> n == 4,
        discriminator_of(n) == Discriminator::StringList <==> n == 5,
        discriminator_of(n) == Discriminator::LabelList <==> n == 6,
        discriminator_of(n) == Discriminator::OutputList <==> n == 7,
        discriminator_of(n) == Discriminator::DistributionSet <==> n == 8,
        discriminator_of(n) == Discriminator::License <==> n == 9,
        discriminator_of(n) == Discriminator::StringDict <==> n == 10,
        discriminator_of(n) == Discriminator::FilesetEntryList <==> n == 11,
        discriminator_of(n) == Discriminator::LabelListDict <==> n == 12,
        discriminator_of(n) == Discriminator::StringListDict <==> n == 13,
        discriminator_of(n) == Discriminator::Boolean <==> n == 14,
        discriminator_of(n) == Discriminator::Tristate <==> n == 15,
        discriminator_of(n) == Discriminator::IntegerList <==> n == 16,
        discriminator_of(n) == Discriminator::DeprecatedStringDictUnary <==> n == 17,
        discriminator_of(n) == Discriminator::StringDictUnary <==> n == 18,
        discriminator_of(n) == Discriminator::Unknown <==> n == 19,
        discriminator_of(n) == Discriminator::LabelDictUnary <==> n == 20,
        discriminator_of(n) == Discriminator::SelectorList <==> n == 21,
        discriminator_of(n) == Discriminator::LabelKeyedStringDict <==> n == 22,
        discriminator_of(n) == Discriminator::Integer <==> n < 2 || n > 22,
{
}

} // verus!
