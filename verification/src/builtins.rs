//! Builtin functions, types and providers, and their documentation.

use std::sync::Arc;

use vstd::prelude::*;

use crate::def::{shapes, Name, TypeRef, TypeShape};
use crate::text::{pieces, pieces_short, views};

verus! {

/// A field of a builtin type.
#[derive(Debug)]
pub struct BuiltinField {
    pub name: Name,
    pub type_ref: TypeRef,
    pub doc: String,
}

/// A parameter of a builtin function.
#[derive(Debug)]
pub enum BuiltinFunctionParam {
    Simple {
        name: Name,
        type_ref: TypeRef,
        doc: String,
        default_value: Option<String>,
        positional: bool,
        is_mandatory: bool,
    },
    ArgsList { name: Name, type_ref: TypeRef, doc: String },
    KwargsDict { name: Name, type_ref: TypeRef, doc: String },
}

impl BuiltinFunctionParam {
    /// The type of a parameter.
    pub open spec fn type_shape(self) -> TypeShape {
        match self {
            BuiltinFunctionParam::Simple { type_ref, .. } => type_ref.shape(),
            BuiltinFunctionParam::ArgsList { name: _, type_ref, doc: _ } => type_ref.shape(),
            BuiltinFunctionParam::KwargsDict { name: _, type_ref, doc: _ } => type_ref.shape(),
        }
    }

    pub fn type_ref(&self) -> (r: &TypeRef)
        ensures
            r.shape() == self.type_shape(),
    {
        match self {
            BuiltinFunctionParam::Simple { type_ref, .. } => type_ref,
            BuiltinFunctionParam::ArgsList { name: _, type_ref, doc: _ } => type_ref,
            BuiltinFunctionParam::KwargsDict { name: _, type_ref, doc: _ } => type_ref,
        }
    }

    /// Whether a call has to pass the parameter.
    pub fn is_mandatory(&self) -> (r: bool)
        ensures
            r == match *self {
                BuiltinFunctionParam::Simple { is_mandatory, .. } => is_mandatory,
                _ => false,
            },
    {
        match self {
            BuiltinFunctionParam::Simple { is_mandatory, .. } => *is_mandatory,
            _ => false,
        }
    }

    pub fn name(&self) -> (r: Name)
        ensures
            r == match *self {
                BuiltinFunctionParam::Simple { name, .. } => name,
                BuiltinFunctionParam::ArgsList { name, type_ref: _, doc: _ } => name,
                BuiltinFunctionParam::KwargsDict { name, type_ref: _, doc: _ } => name,
            },
    {
        match self {
            BuiltinFunctionParam::Simple { name, .. } => name.dup(),
            BuiltinFunctionParam::ArgsList { name, type_ref: _, doc: _ } => name.dup(),
            BuiltinFunctionParam::KwargsDict { name, type_ref: _, doc: _ } => name.dup(),
        }
    }

    pub fn doc(&self) -> (r: &str)
        ensures
            r@ == match *self {
                BuiltinFunctionParam::Simple { doc, .. } => doc@,
                BuiltinFunctionParam::ArgsList { name: _, type_ref: _, doc } => doc@,
                BuiltinFunctionParam::KwargsDict { name: _, type_ref: _, doc } => doc@,
            },
    {
        match self {
            BuiltinFunctionParam::Simple { doc, .. } => doc.as_str(),
            BuiltinFunctionParam::ArgsList { name: _, type_ref: _, doc } => doc.as_str(),
            BuiltinFunctionParam::KwargsDict { name: _, type_ref: _, doc } => doc.as_str(),
        }
    }
}

/// A builtin provider.
#[derive(Debug)]
pub struct BuiltinProviderData {
    pub name: Name,
    pub params: Vec<BuiltinFunctionParam>,
    pub fields: Vec<BuiltinField>,
    pub doc: String,
}

/// A builtin function.
#[derive(Debug)]
pub struct BuiltinFunctionData {
    pub name: Name,
    pub parent_type: Option<String>,
    pub params: Vec<BuiltinFunctionParam>,
    pub ret_type_ref: TypeRef,
    pub doc: String,
}

/// A builtin type. `indexable_by` holds the types of the index and the result.
#[derive(Debug)]
pub struct BuiltinTypeData {
    pub name: Name,
    pub fields: Vec<BuiltinField>,
    pub methods: Vec<Arc<BuiltinFunctionData>>,
    pub doc: String,
    pub indexable_by: Option<(TypeRef, TypeRef)>,
}

/// A global or a field, as the generated documentation describes it.
#[derive(Debug)]
pub struct Value {
    pub name: String,
    pub ty: String,
    pub callable: Option<Callable>,
    pub doc: String,
}

/// How a documented value is called.
#[derive(Debug)]
pub struct Callable {
    pub param: Vec<Param>,
    pub return_type: String,
}

/// A documented parameter.
#[derive(Debug)]
pub struct Param {
    pub name: String,
    pub ty: String,
    pub doc: String,
    pub default_value: String,
    pub is_mandatory: bool,
    pub is_star_arg: bool,
    pub is_star_star_arg: bool,
}

/// A documented type.
#[derive(Debug)]
pub struct Type {
    pub name: String,
    pub field: Vec<Value>,
    pub doc: String,
}

/// The documentation of the host's globals and types.
#[derive(Debug)]
pub struct Builtins {
    pub global: Vec<Value>,
    pub ty: Vec<Type>,
}

/// The builtins of a dialect and the native rules.
#[derive(Debug)]
pub struct BuiltinDefs {
    pub builtins: Builtins,
    pub rules: Builtins,
}

/// What stands in a text for an HTML tag.
pub open spec fn tag_text(tag: Seq<char>, is_type: bool) -> Seq<char> {
    if tag == "p"@ {
        seq!['\n', '\n']
    } else if (tag == "code"@ || tag == "/code"@) && !is_type {
        seq!['`']
    } else {
        Seq::empty()
    }
}

/// The text `s` without HTML tags, read from inside a tag whose first
/// characters are `tag`, or from outside.
pub open spec fn without_tags(s: Seq<char>, in_tag: bool, tag: Seq<char>, is_type: bool) -> Seq<
    char,
>
    decreases s.len(),
{
    if s.len() == 0 {
        Seq::empty()
    } else if s[0] == '<' {
        without_tags(s.drop_first(), true, tag, is_type)
    } else if s[0] == '>' {
        tag_text(tag, is_type) + without_tags(s.drop_first(), false, Seq::empty(), is_type)
    } else if in_tag {
        without_tags(s.drop_first(), true, tag.push(s[0]), is_type)
    } else {
        seq![s[0]] + without_tags(s.drop_first(), false, tag, is_type)
    }
}

/// A text of the documentation without its HTML tags.
pub open spec fn normalized(s: Seq<char>, is_type: bool) -> Seq<char> {
    without_tags(s, false, Seq::empty(), is_type)
}

/// No bracket is left in a normalized text.
pub proof fn normalized_has_no_brackets(s: Seq<char>, is_type: bool)
    ensures
        !normalized(s, is_type).contains('<'),
        !normalized(s, is_type).contains('>'),
{
    no_brackets(s, false, Seq::empty(), is_type);
}

proof fn no_brackets(s: Seq<char>, in_tag: bool, tag: Seq<char>, is_type: bool)
    ensures
        forall|i: int|
            0 <= i < without_tags(s, in_tag, tag, is_type).len() ==> #[trigger] without_tags(
                s,
                in_tag,
                tag,
                is_type,
            )[i] != '<' && without_tags(s, in_tag, tag, is_type)[i] != '>',
    decreases s.len(),
{
    let all = without_tags(s, in_tag, tag, is_type);
    if s.len() > 0 {
        if s[0] == '<' {
            no_brackets(s.drop_first(), true, tag, is_type);
            assert(all == without_tags(s.drop_first(), true, tag, is_type));
        } else if s[0] == '>' {
            no_brackets(s.drop_first(), false, Seq::empty(), is_type);
            let head = tag_text(tag, is_type);
            let rest = without_tags(s.drop_first(), false, Seq::empty(), is_type);
            assert forall|i: int| 0 <= i < all.len() implies #[trigger] all[i] != '<' && all[i]
                != '>' by {
                if i >= head.len() {
                    assert(all[i] == rest[i - head.len()]);
                }
            }
        } else if in_tag {
            no_brackets(s.drop_first(), true, tag.push(s[0]), is_type);
            assert(all == without_tags(s.drop_first(), true, tag.push(s[0]), is_type));
        } else {
            no_brackets(s.drop_first(), false, tag, is_type);
            let rest = without_tags(s.drop_first(), false, tag, is_type);
            assert forall|i: int| 0 <= i < all.len() implies #[trigger] all[i] != '<' && all[i]
                != '>' by {
                if i >= 1 {
                    assert(all[i] == rest[i - 1]);
                }
            }
        }
    } else {
        assert(all.len() == 0);
    }
}

/// A text without brackets is normalized already.
pub proof fn normalized_keeps_plain_text(s: Seq<char>, is_type: bool)
    requires
        !s.contains('<'),
        !s.contains('>'),
    ensures
        normalized(s, is_type) == s,
{
    plain_text(s, is_type);
}

proof fn plain_text(s: Seq<char>, is_type: bool)
    requires
        !s.contains('<'),
        !s.contains('>'),
    ensures
        without_tags(s, false, Seq::empty(), is_type) == s,
    decreases s.len(),
{
    if s.len() == 0 {
        assert(s =~= Seq::empty());
    } else {
        let rest = s.drop_first();
        assert(!rest.contains('<')) by {
            if rest.contains('<') {
                let i = choose|i: int| 0 <= i < rest.len() && rest[i] == '<';
                assert(s[i + 1] == '<');
            }
        }
        assert(!rest.contains('>')) by {
            if rest.contains('>') {
                let i = choose|i: int| 0 <= i < rest.len() && rest[i] == '>';
                assert(s[i + 1] == '>');
            }
        }
        assert(s[0] != '<' && s[0] != '>');
        plain_text(rest, is_type);
        assert(seq![s[0]] + rest =~= s);
    }
}

/// Normalizing a text twice is normalizing it once.
pub proof fn normalized_once(s: Seq<char>, is_type: bool)
    ensures
        normalized(normalized(s, is_type), is_type) == normalized(s, is_type),
{
    normalized_has_no_brackets(s, is_type);
    normalized_keeps_plain_text(normalized(s, is_type), is_type);
}

/// A normalized type is no longer than its text.
pub proof fn normalized_type_is_short(s: Seq<char>)
    ensures
        normalized(s, true).len() <= s.len(),
{
    short_type(s, false, Seq::empty());
}

proof fn short_type(s: Seq<char>, in_tag: bool, tag: Seq<char>)
    ensures
        without_tags(s, in_tag, tag, true).len() <= s.len() + tag.len(),
    decreases s.len(),
{
    reveal_strlit("p");
    if s.len() > 0 {
        if s[0] == '<' {
            short_type(s.drop_first(), true, tag);
        } else if s[0] == '>' {
            short_type(s.drop_first(), false, Seq::empty());
        } else if in_tag {
            short_type(s.drop_first(), true, tag.push(s[0]));
        } else {
            short_type(s.drop_first(), false, tag);
        }
    }
}

/// Removes the HTML tags of the generated documentation: text in angle brackets
/// is left out, but a paragraph leaves two line breaks and, outside types, code
/// is put between backticks.
pub fn normalize_doc(text: &str, is_type: bool) -> (r: String)
    ensures
        r@ == normalized(text@, is_type),
{
    let chars = crate::text::chars_of(text);
    let mut s = String::new();
    let mut in_tag = false;
    let mut tag = String::new();
    let mut i: usize = 0;
    proof {
        assert(chars@.subrange(0, chars@.len() as int) =~= chars@);
        assert(s@ + normalized(chars@, is_type) =~= normalized(chars@, is_type));
    }
    while i < chars.len()
        invariant
            i <= chars@.len(),
            chars@ == text@,
            s@ + without_tags(
                chars@.subrange(i as int, chars@.len() as int),
                in_tag,
                tag@,
                is_type,
            ) == normalized(chars@, is_type),
        decreases chars@.len() - i,
    {
        let ghost rest = chars@.subrange(i as int, chars@.len() as int);
        let ghost before = s@;
        let ch = chars[i];
        proof {
            assert(rest.drop_first() =~= chars@.subrange(i + 1, chars@.len() as int));
        }
        if ch == '<' {
            in_tag = true;
        } else if ch == '>' {
            if crate::text::same(tag.as_str(), "p") {
                s.push('\n');
                s.push('\n');
            } else if (crate::text::same(tag.as_str(), "code") || crate::text::same(
                tag.as_str(),
                "/code",
            )) && !is_type {
                s.push('`');
            }
            proof {
                let after = without_tags(rest.drop_first(), false, Seq::empty(), is_type);
                assert(s@ =~= before + tag_text(tag@, is_type));
                assert(s@ + after =~= before + (tag_text(tag@, is_type) + after));
            }
            in_tag = false;
            tag = String::new();
        } else if in_tag {
            tag.push(ch);
        } else {
            s.push(ch);
            proof {
                let after = without_tags(rest.drop_first(), false, tag@, is_type);
                assert(s@ + after =~= before + (seq![ch] + after));
            }
        }
        i = i + 1;
    }
    proof {
        assert(s@ + Seq::<char>::empty() =~= s@);
    }
    s
}

/// Normalizes text from the generated documentation.
pub fn normalize_doc_text(text: &str) -> (r: String)
    ensures
        r@ == normalized(text@, false),
{
    normalize_doc(text, false)
}

/// The type with a name; an empty name is an unknown type.
pub open spec fn named_type(name: Seq<char>) -> TypeShape {
    if name.len() == 0 {
        TypeShape::Unknown
    } else {
        TypeShape::Name(name, None)
    }
}

/// A word without one `s` at its end.
pub open spec fn singular(word: Seq<char>) -> Seq<char> {
    if word.len() > 0 && word.last() == 's' {
        word.drop_last()
    } else {
        word
    }
}

/// The word behind the first ` of ` of a documented type.
pub open spec fn element_text(part: Seq<char>) -> Option<Seq<char>> {
    let words = pieces(part, " of "@);
    if words.len() >= 2 {
        Some(singular(words[1]))
    } else {
        None
    }
}

/// The word before the first ` of ` of a documented type.
pub open spec fn head_text(part: Seq<char>) -> Seq<char> {
    pieces(part, " of "@)[0]
}

/// The element of a documented type is shorter than the type.
pub proof fn element_is_short(part: Seq<char>)
    ensures
        element_text(part) is Some ==> element_text(part)->0.len() < part.len(),
{
    reveal_strlit(" of ");
    pieces_short(part, " of "@);
}

/// The type that the documentation writes as `text`: alternatives are separated
/// by `; or `, elements follow ` of `.
pub open spec fn documented_type(text: Seq<char>) -> TypeShape
    decreases text.len(), 2nat,
{
    let parts = pieces(normalized(text, true), "; or "@);
    proof {
        normalized_type_is_short(text);
        pieces_short(normalized(text, true), "; or "@);
    }
    if parts.len() == 1 && parts[0].len() <= text.len() {
        documented_part(parts[0])
    } else {
        TypeShape::Union(
            Seq::new(
                parts.len(),
                |i: int|
                    if 0 <= i < parts.len() && parts[i].len() <= text.len() {
                        documented_part(parts[i])
                    } else {
                        TypeShape::Unknown
                    },
            ),
        )
    }
}

/// One alternative of a documented type.
pub open spec fn documented_part(part: Seq<char>) -> TypeShape
    decreases part.len(), 1nat,
{
    let head = head_text(part);
    let element = element_type(part);
    if head == "Iterable"@ || head == "iterable"@ {
        TypeShape::Name("Iterable"@, Some(seq![element]))
    } else if head == "Sequence"@ || head == "sequence"@ {
        TypeShape::Name("Sequence"@, Some(seq![element]))
    } else if head == "List"@ || head == "list"@ {
        TypeShape::Name("list"@, Some(seq![element]))
    } else if head == "Dict"@ || head == "dict"@ || head == "Dictionary"@ {
        TypeShape::Name("dict"@, Some(seq![named_type("string"@), element]))
    } else if head == "String"@ {
        named_type("string"@)
    } else if head == "Boolean"@ || head == "boolean"@ {
        named_type("bool"@)
    } else if head == "label"@ {
        named_type("Label"@)
    } else if head == "NoneType"@ {
        named_type("None"@)
    } else {
        named_type(head)
    }
}

/// The type of the elements of a documented type.
pub open spec fn element_type(part: Seq<char>) -> TypeShape
    decreases part.len(), 0nat,
{
    proof {
        element_is_short(part);
    }
    match element_text(part) {
        Some(element) => if element.len() < part.len() {
            documented_type(element)
        } else {
            TypeShape::Unknown
        },
        None => TypeShape::Unknown,
    }
}

impl TypeRef {
    /// The type with a name; an empty name is an unknown type.
    pub fn from_str_opt(name: &str) -> (r: TypeRef)
        ensures
            r.shape() == named_type(name@),
    {
        if name.is_empty() {
            TypeRef::Unknown
        } else {
            TypeRef::Name(Name::from_str(name), None)
        }
    }
}

/// Reads a type of the generated documentation.
pub fn parse_type_ref(text: &str) -> (r: TypeRef)
    ensures
        r.shape() == documented_type(text@),
    decreases text@.len() + 1, 2nat,
{
    let plain = normalize_doc(text, true);
    proof {
        reveal_strlit("; or ");
        normalized_type_is_short(text@);
        pieces_short(normalized(text@, true), "; or "@);
    }
    let parts = crate::text::split(plain.as_str(), "; or ");
    let ghost wanted = pieces(normalized(text@, true), "; or "@);
    let mut type_refs: Vec<TypeRef> = Vec::new();
    let mut i: usize = 0;
    while i < parts.len()
        invariant
            i <= parts@.len(),
            views(parts@) == wanted,
            forall|k: int| 0 <= k < wanted.len() ==> (#[trigger] wanted[k]).len() <= text@.len(),
            type_refs@.len() == i,
            forall|k: int|
                0 <= k < i ==> (#[trigger] type_refs@[k]).shape() == documented_part(wanted[k]),
        decreases parts@.len() - i,
    {
        assert(views(parts@)[i as int] == parts@[i as int]@);
        type_refs.push(parse_part(parts[i].as_str()));
        i = i + 1;
    }
    let ghost all = type_refs@;
    proof {
        assert(views(parts@).len() == parts@.len());
        if all.len() == 1 {
            assert(all[0].shape() == documented_part(wanted[0]));
        }
    }
    if type_refs.len() == 1 {
        match type_refs.pop() {
            Some(only) => only,
            None => TypeRef::Unknown,
        }
    } else {
        proof {
            match documented_type(text@) {
                TypeShape::Union(types) => assert(types =~= shapes(type_refs@)),
                _ => {},
            }
        }
        TypeRef::Union(type_refs)
    }
}

/// Reads one alternative of a documented type.
fn parse_part(part: &str) -> (r: TypeRef)
    ensures
        r.shape() == documented_part(part@),
    decreases part@.len() + 1, 1nat,
{
    proof {
        reveal_strlit(" of ");
        pieces_short(part@, " of "@);
        element_is_short(part@);
    }
    let words = crate::text::split(part, " of ");
    proof {
        assert(views(words@)[0] == words@[0]@);
        assert(words@.len() == views(words@).len());
        if words@.len() >= 2 {
            assert(views(words@)[1] == words@[1]@);
        }
    }
    let element: Option<String> = if words.len() >= 2 {
        Some(strip_plural(words[1].as_str()))
    } else {
        None
    };
    let head = words[0].as_str();
    if crate::text::same(head, "Iterable") || crate::text::same(head, "iterable") {
        type_ref_with_single_arg("Iterable", &element)
    } else if crate::text::same(head, "Sequence") || crate::text::same(head, "sequence") {
        type_ref_with_single_arg("Sequence", &element)
    } else if crate::text::same(head, "List") || crate::text::same(head, "list") {
        type_ref_with_single_arg("list", &element)
    } else if crate::text::same(head, "Dict") || crate::text::same(head, "dict")
        || crate::text::same(head, "Dictionary") {
        let mut args: Vec<TypeRef> = Vec::new();
        args.push(TypeRef::from_str_opt("string"));
        args.push(parse_element(&element));
        proof {
            assert(shapes(args@) =~= seq![named_type("string"@), element_type(part@)]);
        }
        TypeRef::Name(Name::from_str("dict"), Some(args))
    } else if crate::text::same(head, "String") {
        TypeRef::from_str_opt("string")
    } else if crate::text::same(head, "Boolean") || crate::text::same(head, "boolean") {
        TypeRef::from_str_opt("bool")
    } else if crate::text::same(head, "label") {
        TypeRef::from_str_opt("Label")
    } else if crate::text::same(head, "NoneType") {
        TypeRef::from_str_opt("None")
    } else {
        TypeRef::from_str_opt(head)
    }
}

/// A word without one `s` at its end.
fn strip_plural(word: &str) -> (r: String)
    ensures
        r@ == singular(word@),
{
    let chars = crate::text::chars_of(word);
    let mut end: usize = chars.len();
    if end > 0 && chars[end - 1] == 's' {
        end = end - 1;
    }
    let r = crate::text::string_of(chars.as_slice(), 0, end);
    proof {
        assert(r@ =~= singular(word@));
    }
    r
}

/// The type that an optional text writes.
pub open spec fn documented_opt(element: Option<String>) -> TypeShape {
    match element {
        Some(element) => documented_type(element@),
        None => TypeShape::Unknown,
    }
}

/// How much there is to read of an optional text.
pub open spec fn text_measure(element: Option<String>) -> nat {
    match element {
        Some(element) => element@.len() + 1,
        None => 0,
    }
}

/// Reads the type of an element.
fn parse_element(element: &Option<String>) -> (r: TypeRef)
    ensures
        r.shape() == documented_opt(*element),
    decreases text_measure(*element), 3nat,
{
    match element {
        Some(element) => parse_type_ref(element.as_str()),
        None => TypeRef::Unknown,
    }
}

/// The type `name` with one argument, the type of the element.
pub fn type_ref_with_single_arg(name: &str, element: &Option<String>) -> (r: TypeRef)
    ensures
        r.shape() == TypeShape::Name(name@, Some(seq![documented_opt(*element)])),
    decreases text_measure(*element), 4nat,
{
    let mut args: Vec<TypeRef> = Vec::new();
    args.push(parse_element(element));
    proof {
        assert(shapes(args@) =~= seq![documented_opt(*element)]);
    }
    TypeRef::Name(Name::from_str(name), Some(args))
}

/// The type of one value of a variadic parameter: the element of a list, or
/// the value of a dictionary.
pub open spec fn stripped_type(ty: TypeShape) -> TypeShape {
    match ty {
        TypeShape::Name(name, Some(args)) => if args.len() == 1 && (name == "Iterable"@ || name
            == "Sequence"@ || name == "list"@) {
            args[0]
        } else if args.len() == 2 && name == "dict"@ {
            args[1]
        } else {
            ty
        },
        _ => ty,
    }
}

/// The type of one value of a variadic parameter.
pub fn maybe_strip_iterable_or_dict(type_ref: TypeRef) -> (r: TypeRef)
    ensures
        r.shape() == stripped_type(type_ref.shape()),
{
    match type_ref {
        TypeRef::Name(name, Some(args)) => {
            let mut args = args;
            let ghost before = args@;
            proof {
                assert(shapes(before).len() == before.len());
                assert(forall|i: int|
                    0 <= i < before.len() ==> shapes(before)[i] == #[trigger] before[i].shape());
            }
            if args.len() == 1 && (crate::text::same(name.as_str(), "Iterable")
                || crate::text::same(name.as_str(), "Sequence") || crate::text::same(
                name.as_str(),
                "list",
            )) {
                assert(before[0].shape() == shapes(before)[0]);
                args.remove(0)
            } else if args.len() == 2 && crate::text::same(name.as_str(), "dict") {
                assert(before[1].shape() == shapes(before)[1]);
                args.remove(1)
            } else {
                TypeRef::Name(name, Some(args))
            }
        },
        other => other,
    }
}

/// The type of a field whose documentation is known to be wrong.
pub open spec fn overridden_type(typ: Seq<char>, field: Seq<char>) -> Option<TypeShape> {
    let file = TypeShape::Name("File"@, None);
    if typ == "ctx"@ && (field == "executable"@ || field == "file"@ || field == "outputs"@) {
        Some(TypeShape::Name("struct"@, Some(seq![file])))
    } else if typ == "ctx"@ && field == "files"@ {
        Some(
            TypeShape::Name(
                "struct"@,
                Some(seq![TypeShape::Name("list"@, Some(seq![file]))]),
            ),
        )
    } else {
        None
    }
}

/// The type of a field whose documentation is known to be wrong.
pub fn maybe_field_type_ref_override(typ: &str, field: &str) -> (r: Option<TypeRef>)
    ensures
        match r {
            Some(ty) => overridden_type(typ@, field@) == Some(ty.shape()),
            None => overridden_type(typ@, field@) is None,
        },
{
    if !crate::text::same(typ, "ctx") {
        return None;
    }
    if crate::text::same(field, "executable") || crate::text::same(field, "file")
        || crate::text::same(field, "outputs") {
        let mut args: Vec<TypeRef> = Vec::new();
        args.push(TypeRef::Name(Name::from_str("File"), None));
        proof {
            assert(shapes(args@) =~= seq![TypeShape::Name("File"@, None)]);
        }
        Some(TypeRef::Name(Name::from_str("struct"), Some(args)))
    } else if crate::text::same(field, "files") {
        let mut files: Vec<TypeRef> = Vec::new();
        files.push(TypeRef::Name(Name::from_str("File"), None));
        let mut args: Vec<TypeRef> = Vec::new();
        args.push(TypeRef::Name(Name::from_str("list"), Some(files)));
        proof {
            assert(shapes(files@) =~= seq![TypeShape::Name("File"@, None)]);
            assert(shapes(args@) =~= seq![
                TypeShape::Name("list"@, Some(seq![TypeShape::Name("File"@, None)])),
            ]);
        }
        Some(TypeRef::Name(Name::from_str("struct"), Some(args)))
    } else {
        None
    }
}

/// The documentation of what has none of its own.
pub open spec fn default_doc() -> Seq<char> {
    "See the [Bazel Build Encyclopedia](https://bazel.build/reference/be/overview) for more details."@
}

/// Whether `out` is what a documented parameter means.
pub open spec fn param_of(p: Param, out: BuiltinFunctionParam) -> bool {
    let text = crate::text::without_leading(p.name@, '*');
    match out {
        BuiltinFunctionParam::ArgsList { name, type_ref, doc } => {
            &&& p.is_star_arg
            &&& name@ == text
            &&& type_ref.shape() == stripped_type(documented_type(p.ty@))
            &&& doc@ == normalized(p.doc@, false)
        },
        BuiltinFunctionParam::KwargsDict { name, type_ref, doc } => {
            &&& !p.is_star_arg && p.is_star_star_arg
            &&& name@ == text
            &&& type_ref.shape() == stripped_type(documented_type(p.ty@))
            &&& doc@ == normalized(p.doc@, false)
        },
        BuiltinFunctionParam::Simple {
            name,
            type_ref,
            doc,
            default_value,
            positional,
            is_mandatory,
        } => {
            &&& !p.is_star_arg && !p.is_star_star_arg
            &&& name@ == text
            &&& type_ref.shape() == documented_type(p.ty@)
            &&& doc@ == normalized(p.doc@, false)
            &&& match default_value {
                Some(value) => value@ == p.default_value@ && value@.len() > 0,
                None => p.default_value@.len() == 0,
            }
            &&& positional
            &&& is_mandatory == p.is_mandatory
        },
    }
}

/// Whether `out` are what documented parameters mean, one by one.
pub open spec fn params_of(params: Seq<Param>, out: Seq<BuiltinFunctionParam>) -> bool {
    &&& out.len() == params.len()
    &&& forall|i: int| 0 <= i < out.len() ==> param_of(params[i], #[trigger] out[i])
}

/// Reads a documented parameter.
pub fn builtin_param(param: &Param) -> (r: BuiltinFunctionParam)
    ensures
        param_of(*param, r),
{
    let chars = crate::text::chars_of(param.name.as_str());
    let start = crate::text::skip_char(chars.as_slice(), '*', 0, chars.len());
    let text = crate::text::string_of(chars.as_slice(), start, chars.len());
    proof {
        assert(chars@.subrange(0, chars@.len() as int) =~= chars@);
    }
    let name = Name::from_str(text.as_str());
    let doc = normalize_doc_text(param.doc.as_str());
    if param.is_star_arg {
        let type_ref = maybe_strip_iterable_or_dict(parse_type_ref(param.ty.as_str()));
        BuiltinFunctionParam::ArgsList { name, type_ref, doc }
    } else if param.is_star_star_arg {
        let type_ref = maybe_strip_iterable_or_dict(parse_type_ref(param.ty.as_str()));
        BuiltinFunctionParam::KwargsDict { name, type_ref, doc }
    } else {
        let default_value = if param.default_value.as_str().is_empty() {
            None
        } else {
            Some(param.default_value.clone())
        };
        BuiltinFunctionParam::Simple {
            name,
            type_ref: parse_type_ref(param.ty.as_str()),
            doc,
            default_value,
            positional: true,
            is_mandatory: param.is_mandatory,
        }
    }
}

/// Reads documented parameters.
fn builtin_params(params: &Vec<Param>) -> (out: Vec<BuiltinFunctionParam>)
    ensures
        params_of(params@, out@),
{
    let mut out: Vec<BuiltinFunctionParam> = Vec::new();
    let mut i: usize = 0;
    while i < params.len()
        invariant
            i <= params@.len(),
            out@.len() == i,
            forall|k: int| 0 <= k < i ==> param_of(params@[k], #[trigger] out@[k]),
        decreases params@.len() - i,
    {
        out.push(builtin_param(&params[i]));
        i = i + 1;
    }
    out
}

/// Whether `f` is the function that a documented value means.
pub open spec fn function_of(
    name: Seq<char>,
    callable: Callable,
    doc: Seq<char>,
    parent: Option<Seq<char>>,
    f: BuiltinFunctionData,
) -> bool {
    &&& f.name@ == name
    &&& crate::lower_spec::text_of(f.parent_type) == parent
    &&& params_of(callable.param@, f.params@)
    &&& f.ret_type_ref.shape() == if name == "Label"@ {
        documented_type("Label"@)
    } else {
        documented_type(callable.return_type@)
    }
    &&& f.doc@ == if doc.len() == 0 {
        default_doc()
    } else {
        normalized(doc, false)
    }
}

/// Reads a documented function. The result of `Label` is known to be a label.
pub fn builtin_function(
    name: &str,
    callable: &Callable,
    doc: &str,
    parent_name: Option<&str>,
) -> (f: BuiltinFunctionData)
    ensures
        function_of(
            name@,
            *callable,
            doc@,
            match parent_name {
                Some(parent) => Some(parent@),
                None => None,
            },
            f,
        ),
{
    let ret_type_ref = if crate::text::same(name, "Label") {
        parse_type_ref("Label")
    } else {
        parse_type_ref(callable.return_type.as_str())
    };
    let parent_type = match parent_name {
        Some(parent) => Some(parent.to_owned()),
        None => None,
    };
    let text = if doc.is_empty() {
        "See the [Bazel Build Encyclopedia](https://bazel.build/reference/be/overview) for more details.".to_owned()
    } else {
        normalize_doc_text(doc)
    };
    BuiltinFunctionData {
        name: Name::from_str(name),
        parent_type,
        params: builtin_params(&callable.param),
        ret_type_ref,
        doc: text,
    }
}

/// The documented type of a field, with the known corrections.
pub open spec fn field_type(ty: Seq<char>, field: Value) -> TypeShape {
    match overridden_type(ty, field.name@) {
        Some(shape) => shape,
        None => documented_type(field.ty@),
    }
}

/// The type of a field, with the known corrections.
fn field_type_ref(ty: &str, field: &Value) -> (r: TypeRef)
    ensures
        r.shape() == field_type(ty@, *field),
{
    match maybe_field_type_ref_override(ty, field.name.as_str()) {
        Some(type_ref) => type_ref,
        None => parse_type_ref(field.ty.as_str()),
    }
}

/// Whether `out` is a field of a provider.
pub open spec fn provider_field_of(ty: Seq<char>, field: Value, out: BuiltinField) -> bool {
    &&& out.name@ == field.name@
    &&& out.type_ref.shape() == field_type(ty, field)
    &&& out.doc@ == normalized(field.doc@, false)
}

/// Whether `out` is the keyword parameter that a field of a provider means.
pub open spec fn field_param_of(field: Value, out: BuiltinFunctionParam) -> bool {
    match out {
        BuiltinFunctionParam::Simple {
            name,
            type_ref,
            doc,
            default_value,
            positional,
            is_mandatory,
        } => {
            &&& name@ == field.name@
            &&& type_ref.shape() == documented_type(field.ty@)
            &&& doc@ == normalized(field.doc@, false)
            &&& default_value is None
            &&& !positional
            &&& !is_mandatory
        },
        _ => false,
    }
}

/// Whether `out` are the keyword parameters that the plain fields of a provider mean.
pub open spec fn field_params_of(fields: Seq<Value>, out: Seq<BuiltinFunctionParam>) -> bool
    decreases fields.len(),
{
    if fields.len() == 0 {
        out.len() == 0
    } else if fields.last().callable is None {
        &&& out.len() > 0
        &&& field_param_of(fields.last(), out.last())
        &&& field_params_of(fields.drop_last(), out.drop_last())
    } else {
        field_params_of(fields.drop_last(), out)
    }
}

/// Whether `d` is the provider that a documented type means, given how it is called.
pub open spec fn provider_of(ty: Type, callable: Option<Callable>, d: BuiltinProviderData) -> bool {
    &&& d.name@ == ty.name@
    &&& match callable {
        Some(callable) => params_of(callable.param@, d.params@),
        None => field_params_of(ty.field@, d.params@),
    }
    &&& d.fields@.len() == ty.field@.len()
    &&& forall|i: int|
        0 <= i < d.fields@.len() ==> provider_field_of(
            ty.name@,
            ty.field@[i],
            #[trigger] d.fields@[i],
        )
    &&& d.doc@ == normalized(ty.doc@, false)
}

/// Reads a documented provider.
pub fn builtin_provider(ty: &Type, callable: &Option<Callable>) -> (d: BuiltinProviderData)
    ensures
        provider_of(*ty, *callable, d),
{
    let params = match callable {
        Some(callable) => builtin_params(&callable.param),
        None => field_params(&ty.field),
    };
    let mut fields: Vec<BuiltinField> = Vec::new();
    let mut i: usize = 0;
    while i < ty.field.len()
        invariant
            i <= ty.field@.len(),
            fields@.len() == i,
            forall|k: int|
                0 <= k < i ==> provider_field_of(ty.name@, ty.field@[k], #[trigger] fields@[k]),
        decreases ty.field@.len() - i,
    {
        let field = &ty.field[i];
        fields.push(
            BuiltinField {
                name: Name::from_str(field.name.as_str()),
                type_ref: field_type_ref(ty.name.as_str(), field),
                doc: normalize_doc_text(field.doc.as_str()),
            },
        );
        i = i + 1;
    }
    BuiltinProviderData {
        name: Name::from_str(ty.name.as_str()),
        params,
        fields,
        doc: normalize_doc_text(ty.doc.as_str()),
    }
}

/// The keyword parameters that the plain fields of a provider mean.
fn field_params(fields: &Vec<Value>) -> (out: Vec<BuiltinFunctionParam>)
    ensures
        field_params_of(fields@, out@),
{
    let mut out: Vec<BuiltinFunctionParam> = Vec::new();
    let mut i: usize = 0;
    while i < fields.len()
        invariant
            i <= fields@.len(),
            field_params_of(fields@.take(i as int), out@),
        decreases fields@.len() - i,
    {
        let field = &fields[i];
        let ghost taken = fields@.take(i + 1);
        let ghost earlier = out@;
        proof {
            assert(taken.drop_last() =~= fields@.take(i as int));
            assert(taken.last() == fields@[i as int]);
        }
        if field.callable.is_none() {
            out.push(
                BuiltinFunctionParam::Simple {
                    name: Name::from_str(field.name.as_str()),
                    type_ref: parse_type_ref(field.ty.as_str()),
                    doc: normalize_doc_text(field.doc.as_str()),
                    default_value: None,
                    positional: false,
                    is_mandatory: false,
                },
            );
            proof {
                assert(out@.drop_last() =~= earlier);
            }
        }
        i = i + 1;
    }
    proof {
        assert(fields@.take(i as int) =~= fields@);
    }
    out
}

} // verus!
