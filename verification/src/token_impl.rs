//! How the `#[vpratt::token(routing, span)]` attribute derives, for the type
//! it is applied to, the `VprattToken` impl (which part of an item is its
//! routing token) and the optional `Spanned` impl (which field is its span).
//!
//! The attribute's arguments and the annotated item are described by their
//! shape: a bare identifier, an integer literal or another expression for an
//! argument; the kind of item and its fields (names and type text) for the
//! item. The decision which impls to write, or why none can be, is made here.

use vstd::prelude::*;

verus! {

/// The shape of one attribute argument.
pub enum ArgExpr {
    /// A path of a single identifier, such as `self` or `kind`.
    Ident(String),
    /// An integer literal, by its decimal digits.
    Int(String),
    /// Any other expression.
    Other,
}

/// Where a part of an item is read from.
#[derive(Debug, PartialEq)]
pub enum TokenField {
    /// The whole item (`self`).
    Selff,
    /// A named field.
    Named(String),
    /// A tuple field by index.
    Index(usize),
}

/// The parsed attribute arguments: the routing token's place and, optionally, the span's.
#[derive(Debug, PartialEq)]
pub struct TokenArgs {
    pub routing: TokenField,
    pub span: Option<TokenField>,
}

/// The fields of a struct: named (name and type text), unnamed (type text), or none.
pub enum Fields {
    Named(Vec<(String, String)>),
    Unnamed(Vec<String>),
    Unit,
}

/// The shape of the item the attribute is applied to.
pub enum ItemShape {
    Struct(Fields),
    Enum,
    Union,
    /// A type alias, with the element types (as text) when it names a tuple.
    TypeAlias(Option<Vec<String>>),
    /// Neither a struct, an enum, a union nor a type alias.
    Other,
}

/// A type in a derived impl.
#[derive(Debug, PartialEq)]
pub enum TypeText {
    /// The annotated type itself.
    SelfType,
    /// The declared type of a field.
    Declared(String),
    /// Left for the type checker to infer (an alias of a type whose fields cannot be seen).
    Inferred,
}

/// The impls the attribute writes: the routing token type and where
/// `extract` reads it, and, when a span is named, the span type and field.
#[derive(Debug, PartialEq)]
pub struct TokenImpl {
    pub pratt_token: TypeText,
    pub extract: TokenField,
    pub span: Option<(TypeText, TokenField)>,
}

/// Why the attribute cannot derive the impls.
#[derive(Debug, PartialEq)]
pub enum TokenAttrError {
    /// It takes one or two arguments; this many were given.
    ArgumentCount(usize),
    /// An argument is neither `self`, a field name nor a tuple index.
    BadArgument,
    /// A tuple index does not fit in `usize`.
    BadIndex,
    /// The item is not a struct, enum, union or type alias.
    NotAnItem,
    /// The span was given as `self`.
    SpanIsSelf,
    /// A named field was given for a type alias, whose fields cannot be seen.
    NamedFieldOnAlias(String),
    /// The item has no named field of this name.
    FieldNotFound(String),
    /// The item has no tuple field at this index.
    TupleFieldNotFound(usize),
}

/// Whether every character is a decimal digit.
pub open spec fn all_digits(s: Seq<char>) -> bool {
    forall|i: int| 0 <= i < s.len() ==> '0' <= #[trigger] s[i] <= '9'
}

/// The number written by decimal digits.
pub open spec fn decimal_value(s: Seq<char>) -> nat
    decreases s.len(),
{
    if s.len() == 0 {
        0
    } else {
        decimal_value(s.drop_last()) * 10 + (s.last() as nat - '0' as nat) as nat
    }
}

/// What an argument denotes.
pub open spec fn field_of(e: ArgExpr) -> Result<TokenField, TokenAttrError> {
    match e {
        ArgExpr::Ident(name) => if name@ == "self"@ {
            Ok(TokenField::Selff)
        } else {
            Ok(TokenField::Named(name))
        },
        ArgExpr::Int(digits) => if digits@.len() > 0 && all_digits(digits@) && decimal_value(digits@)
            <= usize::MAX {
            Ok(TokenField::Index(decimal_value(digits@) as usize))
        } else {
            Err(TokenAttrError::BadIndex)
        },
        ArgExpr::Other => Err(TokenAttrError::BadArgument),
    }
}

/// What the argument list denotes.
pub open spec fn args_of(args: Seq<ArgExpr>) -> Result<TokenArgs, TokenAttrError> {
    if args.len() == 0 || args.len() > 2 {
        Err(TokenAttrError::ArgumentCount(args.len() as usize))
    } else {
        match field_of(args[0]) {
            Err(e) => Err(e),
            Ok(routing) => if args.len() == 1 {
                Ok(TokenArgs { routing, span: None })
            } else {
                match field_of(args[1]) {
                    Err(e) => Err(e),
                    Ok(span) => Ok(TokenArgs { routing, span: Some(span) }),
                }
            },
        }
    }
}

/// Parses a decimal digit string into a `usize`, failing on anything else
/// and on values that do not fit.
fn parse_index(digits: &String) -> (r: Result<usize, TokenAttrError>)
    ensures
        digits@.len() > 0 && all_digits(digits@) && decimal_value(digits@) <= usize::MAX ==> r
            == Ok::<usize, TokenAttrError>(decimal_value(digits@) as usize),
        !(digits@.len() > 0 && all_digits(digits@) && decimal_value(digits@) <= usize::MAX) ==> r
            == Err::<usize, TokenAttrError>(TokenAttrError::BadIndex),
{
    let s = digits.as_str();
    let n = s.unicode_len();
    if n == 0 {
        return Err(TokenAttrError::BadIndex);
    }
    let mut value: usize = 0;
    let mut i: usize = 0;
    while i < n
        invariant
            n == digits@.len(),
            s@ == digits@,
            i <= n,
            all_digits(digits@.take(i as int)),
            value == decimal_value(digits@.take(i as int)),
        decreases n - i,
    {
        let c = s.get_char(i);
        proof {
            assert(digits@.take(i + 1).drop_last() =~= digits@.take(i as int));
            assert(digits@.take(i + 1).last() == c);
        }
        if c < '0' || c > '9' {
            proof {
                assert(!all_digits(digits@)) by {
                    assert(digits@[i as int] == c);
                }
            }
            return Err(TokenAttrError::BadIndex);
        }
        let d = (c as u32 - '0' as u32) as usize;
        if value > (usize::MAX - d) / 10 {
            proof {
                let m = usize::MAX as int;
                assert(value * 10 + d > m) by (nonlinear_arith)
                    requires
                        value > (m - d) / 10,
                        0 <= d <= 9,
                        m > 9,
                ;
                if all_digits(digits@) {
                    lemma_decimal_value_grows(digits@, (i + 1) as int);
                }
            }
            return Err(TokenAttrError::BadIndex);
        }
        value = value * 10 + d;
        i = i + 1;
    }
    proof {
        assert(digits@.take(n as int) =~= digits@);
    }
    Ok(value)
}

/// A longer digit prefix never denotes a smaller number.
proof fn lemma_decimal_value_grows(s: Seq<char>, k: int)
    requires
        0 <= k <= s.len(),
        all_digits(s),
    ensures
        decimal_value(s.take(k)) <= decimal_value(s),
    decreases s.len() - k,
{
    if k < s.len() {
        lemma_decimal_value_grows(s, k + 1);
        assert(s.take(k + 1).drop_last() =~= s.take(k));
        assert(s.take(k + 1).last() == s[k]);
    } else {
        assert(s.take(k) =~= s);
    }
}

/// Reads one argument: `self`, a field name, or a tuple index.
pub fn parse_field(expr: &ArgExpr) -> (r: Result<TokenField, TokenAttrError>)
    ensures
        r == field_of(*expr),
{
    match expr {
        ArgExpr::Ident(name) => {
            let self_kw = String::from_str("self");
            if *name == self_kw {
                Ok(TokenField::Selff)
            } else {
                Ok(TokenField::Named(name.clone()))
            }
        },
        ArgExpr::Int(digits) => match parse_index(digits) {
            Ok(i) => Ok(TokenField::Index(i)),
            Err(e) => Err(e),
        },
        ArgExpr::Other => Err(TokenAttrError::BadArgument),
    }
}

/// Reads the argument list: one or two arguments, the routing token's place
/// then, optionally, the span's.
pub fn parse_args(args: &Vec<ArgExpr>) -> (r: Result<TokenArgs, TokenAttrError>)
    ensures
        r == args_of(args@),
{
    if args.len() == 0 || args.len() > 2 {
        return Err(TokenAttrError::ArgumentCount(args.len()));
    }
    let routing = match parse_field(&args[0]) {
        Ok(f) => f,
        Err(e) => {
            return Err(e);
        },
    };
    if args.len() == 1 {
        Ok(TokenArgs { routing, span: None })
    } else {
        match parse_field(&args[1]) {
            Ok(span) => Ok(TokenArgs { routing, span: Some(span) }),
            Err(e) => Err(e),
        }
    }
}

/// The declared type of the first named field called `name`.
pub open spec fn lookup_named(fields: Seq<(String, String)>, name: Seq<char>) -> Option<String>
    decreases fields.len(),
{
    if fields.len() == 0 {
        None
    } else if fields[0].0@ == name {
        Some(fields[0].1)
    } else {
        lookup_named(fields.drop_first(), name)
    }
}

/// The declared type of the named field `name` of the item.
pub open spec fn named_type_of(item: ItemShape, name: String) -> Result<String, TokenAttrError> {
    match item {
        ItemShape::Struct(Fields::Named(fields)) => match lookup_named(fields@, name@) {
            Some(ty) => Ok(ty),
            None => Err(TokenAttrError::FieldNotFound(name)),
        },
        _ => Err(TokenAttrError::FieldNotFound(name)),
    }
}

/// The declared type of the tuple field `index` of the item.
pub open spec fn tuple_type_of(item: ItemShape, index: usize) -> Result<String, TokenAttrError> {
    match item {
        ItemShape::Struct(Fields::Unnamed(types)) => if index < types@.len() {
            Ok(types@[index as int])
        } else {
            Err(TokenAttrError::TupleFieldNotFound(index))
        },
        _ => Err(TokenAttrError::TupleFieldNotFound(index)),
    }
}

/// The type and place a field argument denotes on a struct, enum or union.
pub open spec fn derive_part(item: ItemShape, f: TokenField) -> Result<(TypeText, TokenField), TokenAttrError> {
    match f {
        TokenField::Selff => Ok((TypeText::SelfType, TokenField::Selff)),
        TokenField::Named(name) => match named_type_of(item, name) {
            Ok(ty) => Ok((TypeText::Declared(ty), TokenField::Named(name))),
            Err(e) => Err(e),
        },
        TokenField::Index(i) => match tuple_type_of(item, i) {
            Ok(ty) => Ok((TypeText::Declared(ty), TokenField::Index(i))),
            Err(e) => Err(e),
        },
    }
}

/// The impls derived for a struct, enum or union: the routing token is the
/// whole item or the named or tuple field given, with that field's declared
/// type; the span, if given, is a named or tuple field, never `self`.
pub open spec fn derive_plan(args: TokenArgs, item: ItemShape) -> Result<TokenImpl, TokenAttrError> {
    match derive_part(item, args.routing) {
        Err(e) => Err(e),
        Ok((pratt_token, extract)) => match args.span {
            None => Ok(TokenImpl { pratt_token, extract, span: None }),
            Some(TokenField::Selff) => Err(TokenAttrError::SpanIsSelf),
            Some(f) => match derive_part(item, f) {
                Err(e) => Err(e),
                Ok(span) => Ok(TokenImpl { pratt_token, extract, span: Some(span) }),
            },
        },
    }
}

/// The type and place a tuple index denotes on a type alias: the element
/// type when the alias names a tuple that has element `i`, else left to the
/// type checker (which then judges the index).
pub open spec fn alias_part(item: ItemShape, i: usize) -> (TypeText, TokenField) {
    match item {
        ItemShape::TypeAlias(Some(types)) if i < types@.len() => (
            TypeText::Declared(types@[i as int]),
            TokenField::Index(i),
        ),
        _ => (TypeText::Inferred, TokenField::Index(i)),
    }
}

/// On a struct, the span argument decides the `Spanned` impl whatever the
/// routing argument is (`self`, a field name or a tuple index): when it
/// names a field of the struct (by name, or by tuple index), the derived
/// impl's span is that field with its declared type; and two argument lists
/// that differ only in their routing argument give the same span.
pub proof fn lemma_span_independent_of_routing(
    a1: TokenArgs,
    a2: TokenArgs,
    item: ItemShape,
    name: String,
    ty: String,
    index: usize,
)
    ensures
        ({
            &&& item matches ItemShape::Struct(Fields::Named(fields))
            &&& lookup_named(fields@, name@) == Some(ty)
            &&& a1.span == Some(TokenField::Named(name))
            &&& a1.routing == TokenField::Selff
        }) ==> derive_plan(a1, item) == Ok::<TokenImpl, TokenAttrError>(
            TokenImpl {
                pratt_token: TypeText::SelfType,
                extract: TokenField::Selff,
                span: Some((TypeText::Declared(ty), TokenField::Named(name))),
            },
        ),
        ({
            &&& item matches ItemShape::Struct(Fields::Named(fields))
            &&& lookup_named(fields@, name@) == Some(ty)
            &&& a1.span == Some(TokenField::Named(name))
            &&& derive_part(item, a1.routing) is Ok
        }) ==> (derive_plan(a1, item) matches Ok(t) && t.span == Some(
            (TypeText::Declared(ty), TokenField::Named(name)),
        )),
        ({
            &&& item matches ItemShape::Struct(Fields::Unnamed(types))
            &&& index < types@.len()
            &&& a1.span == Some(TokenField::Index(index))
            &&& derive_part(item, a1.routing) is Ok
        }) ==> (derive_plan(a1, item) matches Ok(t) && t.span == Some(
            (TypeText::Declared(item->Struct_0->Unnamed_0@[index as int]), TokenField::Index(index)),
        )),
        ({
            &&& a1.span == a2.span
            &&& derive_plan(a1, item) is Ok
            &&& derive_plan(a2, item) is Ok
        }) ==> derive_plan(a1, item)->Ok_0.span == derive_plan(a2, item)->Ok_0.span,
{
}

/// The impls derived for a type alias, whose fields are only known when it
/// names a tuple: the routing token is the whole item or a tuple element;
/// named fields are refused; the span, if given, is a tuple element.
pub open spec fn alias_plan(args: TokenArgs, item: ItemShape) -> Result<TokenImpl, TokenAttrError> {
    let routing = match args.routing {
        TokenField::Selff => Ok((TypeText::SelfType, TokenField::Selff)),
        TokenField::Named(name) => Err(TokenAttrError::NamedFieldOnAlias(name)),
        TokenField::Index(i) => Ok(alias_part(item, i)),
    };
    match routing {
        Err(e) => Err(e),
        Ok((pratt_token, extract)) => match args.span {
            None => Ok(TokenImpl { pratt_token, extract, span: None }),
            Some(TokenField::Named(name)) => Err(TokenAttrError::NamedFieldOnAlias(name)),
            Some(TokenField::Selff) => Err(TokenAttrError::SpanIsSelf),
            Some(TokenField::Index(i)) => Ok(TokenImpl { pratt_token, extract, span: Some(alias_part(item, i)) }),
        },
    }
}

/// The impls the attribute derives for `item` from `args`.
pub open spec fn expand_plan(args: Seq<ArgExpr>, item: ItemShape) -> Result<TokenImpl, TokenAttrError> {
    match args_of(args) {
        Err(e) => Err(e),
        Ok(a) => match item {
            ItemShape::Struct(_) | ItemShape::Enum | ItemShape::Union => derive_plan(a, item),
            ItemShape::TypeAlias(_) => alias_plan(a, item),
            ItemShape::Other => Err(TokenAttrError::NotAnItem),
        },
    }
}

/// The declared type of the named field `field` of `item`.
pub fn named_field_type(item: &ItemShape, field: &String) -> (r: Result<String, TokenAttrError>)
    ensures
        r == named_type_of(*item, *field),
{
    match item {
        ItemShape::Struct(Fields::Named(fields)) => {
            let n = fields.len();
            let mut i: usize = 0;
            proof {
                assert(fields@.skip(0) =~= fields@);
            }
            while i < n
                invariant
                    n == fields@.len(),
                    i <= n,
                    *item == ItemShape::Struct(Fields::Named(*fields)),
                    lookup_named(fields@, field@) == lookup_named(fields@.skip(i as int), field@),
                decreases n - i,
            {
                proof {
                    assert(fields@.skip(i as int)[0] == fields@[i as int]);
                    assert(fields@.skip(i as int).drop_first() =~= fields@.skip(i + 1));
                }
                let (name, ty) = &fields[i];
                if *name == *field {
                    let found = ty.clone();
                    proof {
                        assert(fields@.skip(i as int)[0].0@ == field@);
                    }
                    return Ok(found);
                }
                i = i + 1;
            }
            Err(TokenAttrError::FieldNotFound(field.clone()))
        },
        _ => Err(TokenAttrError::FieldNotFound(field.clone())),
    }
}

/// The declared type of the tuple field `index` of `item`.
pub fn tuple_field_type(item: &ItemShape, index: usize) -> (r: Result<String, TokenAttrError>)
    ensures
        r == tuple_type_of(*item, index),
{
    match item {
        ItemShape::Struct(Fields::Unnamed(types)) => if index < types.len() {
            Ok(types[index].clone())
        } else {
            Err(TokenAttrError::TupleFieldNotFound(index))
        },
        _ => Err(TokenAttrError::TupleFieldNotFound(index)),
    }
}

/// The type and place a field argument denotes on a struct, enum or union.
fn derive_field(item: &ItemShape, f: TokenField) -> (r: Result<(TypeText, TokenField), TokenAttrError>)
    ensures
        r == derive_part(*item, f),
{
    match f {
        TokenField::Selff => Ok((TypeText::SelfType, TokenField::Selff)),
        TokenField::Named(name) => match named_field_type(item, &name) {
            Ok(ty) => Ok((TypeText::Declared(ty), TokenField::Named(name))),
            Err(e) => Err(e),
        },
        TokenField::Index(i) => match tuple_field_type(item, i) {
            Ok(ty) => Ok((TypeText::Declared(ty), TokenField::Index(i))),
            Err(e) => Err(e),
        },
    }
}

/// The impls for a struct, enum or union.
pub fn expand_derive_input(args: TokenArgs, item: &ItemShape) -> (r: Result<TokenImpl, TokenAttrError>)
    ensures
        r == derive_plan(args, *item),
{
    let TokenArgs { routing, span } = args;
    let (pratt_token, extract) = match derive_field(item, routing) {
        Ok(part) => part,
        Err(e) => {
            return Err(e);
        },
    };
    match span {
        None => Ok(TokenImpl { pratt_token, extract, span: None }),
        Some(TokenField::Selff) => Err(TokenAttrError::SpanIsSelf),
        Some(f) => match derive_field(item, f) {
            Ok(sp) => Ok(TokenImpl { pratt_token, extract, span: Some(sp) }),
            Err(e) => Err(e),
        },
    }
}

/// The type and place a tuple index denotes on a type alias.
fn alias_field(item: &ItemShape, i: usize) -> (r: (TypeText, TokenField))
    ensures
        r == alias_part(*item, i),
{
    match item {
        ItemShape::TypeAlias(Some(types)) => if i < types.len() {
            (TypeText::Declared(types[i].clone()), TokenField::Index(i))
        } else {
            (TypeText::Inferred, TokenField::Index(i))
        },
        _ => (TypeText::Inferred, TokenField::Index(i)),
    }
}

/// The impls for a type alias `item`.
pub fn expand_type_alias(args: TokenArgs, item: &ItemShape) -> (r: Result<TokenImpl, TokenAttrError>)
    ensures
        r == alias_plan(args, *item),
{
    let TokenArgs { routing, span } = args;
    let (pratt_token, extract) = match routing {
        TokenField::Selff => (TypeText::SelfType, TokenField::Selff),
        TokenField::Named(name) => {
            return Err(TokenAttrError::NamedFieldOnAlias(name));
        },
        TokenField::Index(i) => alias_field(item, i),
    };
    match span {
        None => Ok(TokenImpl { pratt_token, extract, span: None }),
        Some(TokenField::Named(name)) => Err(TokenAttrError::NamedFieldOnAlias(name)),
        Some(TokenField::Selff) => Err(TokenAttrError::SpanIsSelf),
        Some(TokenField::Index(i)) => Ok(TokenImpl { pratt_token, extract, span: Some(alias_field(item, i)) }),
    }
}

/// The impls the attribute derives for `item` from its arguments `args`.
pub fn expand(args: &Vec<ArgExpr>, item: &ItemShape) -> (r: Result<TokenImpl, TokenAttrError>)
    ensures
        r == expand_plan(args@, *item),
{
    let token_args = match parse_args(args) {
        Ok(a) => a,
        Err(e) => {
            return Err(e);
        },
    };
    match item {
        ItemShape::Struct(_) | ItemShape::Enum | ItemShape::Union => expand_derive_input(token_args, item),
        ItemShape::TypeAlias(_) => expand_type_alias(token_args, item),
        ItemShape::Other => Err(TokenAttrError::NotAnItem),
    }
}

} // verus!

