//! The public members of a Rust API and the text each is presented by.

use vstd::prelude::*;
use crate::strings::{join, join_strings, trim, trim_str, views};

verus! {

/// A public member of a Rust API.
#[derive(Debug, Clone, PartialEq)]
pub enum RustPublicMember {
    Function(Function),
    Struct(Struct),
    Enum(Enum),
    Trait(Trait),
    Macro(Macro),
}

/// A public function.
#[derive(Debug, Clone, PartialEq)]
pub struct Function {
    pub name: String,
    pub parameters: Vec<Parameter>,
    pub return_type: Option<String>,
    pub doc_comment: Option<String>,
    pub type_parameters: Vec<TypeParameter>,
    pub where_clause: Option<String>,
}

/// A function parameter.
#[derive(Debug, Clone, PartialEq)]
pub struct Parameter {
    pub name: String,
    pub ty: String,
}

/// A type parameter and its bounds.
#[derive(Debug, Clone, PartialEq)]
pub struct TypeParameter {
    pub name: String,
    pub bounds: Vec<String>,
}

/// A public struct.
#[derive(Debug, Clone, PartialEq)]
pub struct Struct {
    pub name: String,
    pub fields: Vec<StructField>,
    pub doc_comment: Option<String>,
    pub type_parameters: Vec<TypeParameter>,
}

/// A struct field.
#[derive(Debug, Clone, PartialEq)]
pub struct StructField {
    pub name: String,
    pub ty: String,
    pub doc_comment: Option<String>,
}

/// A public enum.
#[derive(Debug, Clone, PartialEq)]
pub struct Enum {
    pub name: String,
    pub variants: Vec<EnumVariant>,
    pub doc_comment: Option<String>,
    pub type_parameters: Vec<TypeParameter>,
}

/// An enum variant.
#[derive(Debug, Clone, PartialEq)]
pub struct EnumVariant {
    pub name: String,
    pub fields: Vec<VariantField>,
    pub doc_comment: Option<String>,
}

/// A field of an enum variant, named or positional.
#[derive(Debug, Clone, PartialEq)]
pub struct VariantField {
    pub name: Option<String>,
    pub ty: String,
}

/// A public trait.
#[derive(Debug, Clone, PartialEq)]
pub struct Trait {
    pub name: String,
    pub methods: Vec<Function>,
    pub doc_comment: Option<String>,
    pub type_parameters: Vec<TypeParameter>,
}

/// A public macro.
#[derive(Debug, Clone, PartialEq)]
pub struct Macro {
    pub name: String,
    pub definition: String,
    pub doc_comment: Option<String>,
}

/// `name`, or `name: A + B` with its bounds.
pub open spec fn type_parameter_text(tp: TypeParameter) -> Seq<char> {
    if tp.bounds@.len() == 0 {
        tp.name@
    } else {
        tp.name@ + ": "@ + join(views(tp.bounds@), " + "@)
    }
}

/// `<T, U: B>`, or nothing when there are no type parameters.
pub open spec fn type_parameters_text(tps: Seq<TypeParameter>) -> Seq<char> {
    if tps.len() == 0 {
        Seq::empty()
    } else {
        "<"@ + join(tps.map_values(|t: TypeParameter| type_parameter_text(t)), ", "@) + ">"@
    }
}

/// `name: type`.
pub open spec fn parameter_text(p: Parameter) -> Seq<char> {
    p.name@ + ": "@ + p.ty@
}

/// `pub fn name<T>(a: A, b: B) -> R where W;`, the return type and where
/// clause only when present.
pub open spec fn function_text(f: Function) -> Seq<char> {
    "pub fn "@ + f.name@ + type_parameters_text(f.type_parameters@) + "("@
        + join(f.parameters@.map_values(|p: Parameter| parameter_text(p)), ", "@) + ")"@
        + match f.return_type {
            Some(rt) => " -> "@ + rt@,
            None => Seq::empty(),
        } + match f.where_clause {
            Some(w) => " where "@ + w@,
            None => Seq::empty(),
        } + ";"@
}

/// A struct field on its own line, after its trimmed doc comment if any.
pub open spec fn struct_field_text(f: StructField) -> Seq<char> {
    match f.doc_comment {
        Some(d) => trim(d@) + "\n    pub "@ + f.name@ + ": "@ + f.ty@,
        None => "    pub "@ + f.name@ + ": "@ + f.ty@,
    }
}

/// `pub struct Name<T> {` and the fields, one per line, then `}`.
pub open spec fn struct_text(s: Struct) -> Seq<char> {
    "pub struct "@ + s.name@ + type_parameters_text(s.type_parameters@) + " {\n"@
        + join(s.fields@.map_values(|f: StructField| struct_field_text(f)), ",\n"@) + "\n}"@
}

/// `name: type`, or the type alone for a positional field.
pub open spec fn variant_field_text(f: VariantField) -> Seq<char> {
    match f.name {
        Some(n) => n@ + ": "@ + f.ty@,
        None => f.ty@,
    }
}

/// A variant on its own line with its fields in parentheses, after its
/// trimmed doc comment if any.
pub open spec fn variant_text(v: EnumVariant) -> Seq<char> {
    let fields = if v.fields@.len() == 0 {
        Seq::empty()
    } else {
        "("@ + join(v.fields@.map_values(|f: VariantField| variant_field_text(f)), ", "@) + ")"@
    };
    match v.doc_comment {
        Some(d) => trim(d@) + "\n    "@ + v.name@ + fields,
        None => "    "@ + v.name@ + fields,
    }
}

/// `pub enum Name<T> {` and the variants, one per line, then `}`.
pub open spec fn enum_text(e: Enum) -> Seq<char> {
    "pub enum "@ + e.name@ + type_parameters_text(e.type_parameters@) + " {\n"@
        + join(e.variants@.map_values(|v: EnumVariant| variant_text(v)), ",\n"@) + "\n}"@
}

/// `pub trait Name<T> {` and the method signatures, one per line, then `}`.
pub open spec fn trait_text(t: Trait) -> Seq<char> {
    "pub trait "@ + t.name@ + type_parameters_text(t.type_parameters@) + " {\n    "@
        + join(t.methods@.map_values(|m: Function| function_text(m)), "\n    "@) + "\n}"@
}

/// The definition, after the trimmed doc comment if any.
pub open spec fn macro_text(m: Macro) -> Seq<char> {
    match m.doc_comment {
        Some(d) => trim(d@) + "\n"@ + m.definition@,
        None => m.definition@,
    }
}

/// The text a member is presented by.
pub open spec fn member_text(m: RustPublicMember) -> Seq<char> {
    match m {
        RustPublicMember::Function(f) => function_text(f),
        RustPublicMember::Struct(s) => struct_text(s),
        RustPublicMember::Enum(e) => enum_text(e),
        RustPublicMember::Trait(t) => trait_text(t),
        RustPublicMember::Macro(m) => macro_text(m),
    }
}

impl TypeParameter {
    /// The type parameter as written in a signature.
    pub fn to_string(&self) -> (r: String)
        ensures
            r@ == type_parameter_text(*self),
    {
        if self.bounds.len() == 0 {
            return self.name.clone();
        }
        let mut r = self.name.clone();
        r.append(": ");
        r.append(join_strings(self.bounds.as_slice(), " + ").as_str());
        r
    }
}

/// The type parameters as written after a name.
fn type_parameters_string(tps: &Vec<TypeParameter>) -> (r: String)
    ensures
        r@ == type_parameters_text(tps@),
{
    if tps.len() == 0 {
        return String::new();
    }
    let ghost all = tps@.map_values(|t: TypeParameter| type_parameter_text(t));
    let mut parts: Vec<String> = Vec::new();
    let mut i: usize = 0;
    while i < tps.len()
        invariant
            i <= tps@.len(),
            all == tps@.map_values(|t: TypeParameter| type_parameter_text(t)),
            views(parts@) == all.subrange(0, i as int),
        decreases tps@.len() - i,
    {
        let ghost before = views(parts@);
        let t = tps[i].to_string();
        parts.push(t);
        assert(views(parts@) =~= before.push(t@));
        assert(all.subrange(0, i + 1) =~= all.subrange(0, i as int).push(all[i as int]));
        i = i + 1;
    }
    assert(all.subrange(0, all.len() as int) =~= all);
    let mut r = String::from_str("<");
    r.append(join_strings(parts.as_slice(), ", ").as_str());
    r.append(">");
    r
}

impl Function {
    /// The function's signature: `pub fn name<T>(a: A) -> R where W;`.
    pub fn to_string(&self) -> (r: String)
        ensures
            r@ == function_text(*self),
    {
        let ghost all = self.parameters@.map_values(|p: Parameter| parameter_text(p));
        let mut parts: Vec<String> = Vec::new();
        let mut i: usize = 0;
        while i < self.parameters.len()
            invariant
                i <= self.parameters@.len(),
                all == self.parameters@.map_values(|p: Parameter| parameter_text(p)),
                views(parts@) == all.subrange(0, i as int),
            decreases self.parameters@.len() - i,
        {
            let ghost before = views(parts@);
            let p = &self.parameters[i];
            let mut t = p.name.clone();
            t.append(": ");
            t.append(p.ty.as_str());
            parts.push(t);
            assert(views(parts@) =~= before.push(t@));
            assert(all.subrange(0, i + 1) =~= all.subrange(0, i as int).push(all[i as int]));
            i = i + 1;
        }
        assert(all.subrange(0, all.len() as int) =~= all);
        let mut r = String::from_str("pub fn ");
        r.append(self.name.as_str());
        r.append(type_parameters_string(&self.type_parameters).as_str());
        r.append("(");
        r.append(join_strings(parts.as_slice(), ", ").as_str());
        r.append(")");
        match &self.return_type {
            Some(rt) => {
                r.append(" -> ");
                r.append(rt.as_str());
            },
            None => {},
        }
        match &self.where_clause {
            Some(w) => {
                r.append(" where ");
                r.append(w.as_str());
            },
            None => {},
        }
        r.append(";");
        r
    }
}

impl Struct {
    /// The struct with its fields, one per line.
    pub fn to_string(&self) -> (r: String)
        ensures
            r@ == struct_text(*self),
    {
        let ghost all = self.fields@.map_values(|f: StructField| struct_field_text(f));
        let mut parts: Vec<String> = Vec::new();
        let mut i: usize = 0;
        while i < self.fields.len()
            invariant
                i <= self.fields@.len(),
                all == self.fields@.map_values(|f: StructField| struct_field_text(f)),
                views(parts@) == all.subrange(0, i as int),
            decreases self.fields@.len() - i,
        {
            let ghost before = views(parts@);
            let f = &self.fields[i];
            let mut t = match &f.doc_comment {
                Some(d) => {
                    let mut t = trim_str(d.as_str());
                    t.append("\n    pub ");
                    t
                },
                None => String::from_str("    pub "),
            };
            t.append(f.name.as_str());
            t.append(": ");
            t.append(f.ty.as_str());
            parts.push(t);
            assert(views(parts@) =~= before.push(t@));
            assert(all.subrange(0, i + 1) =~= all.subrange(0, i as int).push(all[i as int]));
            i = i + 1;
        }
        assert(all.subrange(0, all.len() as int) =~= all);
        let mut r = String::from_str("pub struct ");
        r.append(self.name.as_str());
        r.append(type_parameters_string(&self.type_parameters).as_str());
        r.append(" {\n");
        r.append(join_strings(parts.as_slice(), ",\n").as_str());
        r.append("\n}");
        r
    }
}

/// A variant with its fields, after its trimmed doc comment if any.
fn variant_string(v: &EnumVariant) -> (r: String)
    ensures
        r@ == variant_text(*v),
{
    let ghost all = v.fields@.map_values(|f: VariantField| variant_field_text(f));
    let mut parts: Vec<String> = Vec::new();
    let mut i: usize = 0;
    while i < v.fields.len()
        invariant
            i <= v.fields@.len(),
            all == v.fields@.map_values(|f: VariantField| variant_field_text(f)),
            views(parts@) == all.subrange(0, i as int),
        decreases v.fields@.len() - i,
    {
        let ghost before = views(parts@);
        let f = &v.fields[i];
        let t = match &f.name {
            Some(n) => {
                let mut t = n.clone();
                t.append(": ");
                t.append(f.ty.as_str());
                t
            },
            None => f.ty.clone(),
        };
        parts.push(t);
        assert(views(parts@) =~= before.push(t@));
        assert(all.subrange(0, i + 1) =~= all.subrange(0, i as int).push(all[i as int]));
        i = i + 1;
    }
    assert(all.subrange(0, all.len() as int) =~= all);
    let fields = if v.fields.len() == 0 {
        String::new()
    } else {
        let mut f = String::from_str("(");
        f.append(join_strings(parts.as_slice(), ", ").as_str());
        f.append(")");
        f
    };
    let mut r = match &v.doc_comment {
        Some(d) => {
            let mut t = trim_str(d.as_str());
            t.append("\n    ");
            t
        },
        None => String::from_str("    "),
    };
    r.append(v.name.as_str());
    r.append(fields.as_str());
    r
}

impl Enum {
    /// The enum with its variants, one per line.
    pub fn to_string(&self) -> (r: String)
        ensures
            r@ == enum_text(*self),
    {
        let ghost all = self.variants@.map_values(|v: EnumVariant| variant_text(v));
        let mut parts: Vec<String> = Vec::new();
        let mut i: usize = 0;
        while i < self.variants.len()
            invariant
                i <= self.variants@.len(),
                all == self.variants@.map_values(|v: EnumVariant| variant_text(v)),
                views(parts@) == all.subrange(0, i as int),
            decreases self.variants@.len() - i,
        {
            let ghost before = views(parts@);
            let t = variant_string(&self.variants[i]);
            parts.push(t);
            assert(views(parts@) =~= before.push(t@));
            assert(all.subrange(0, i + 1) =~= all.subrange(0, i as int).push(all[i as int]));
            i = i + 1;
        }
        assert(all.subrange(0, all.len() as int) =~= all);
        let mut r = String::from_str("pub enum ");
        r.append(self.name.as_str());
        r.append(type_parameters_string(&self.type_parameters).as_str());
        r.append(" {\n");
        r.append(join_strings(parts.as_slice(), ",\n").as_str());
        r.append("\n}");
        r
    }
}

impl Trait {
    /// The trait with its method signatures, one per line.
    pub fn to_string(&self) -> (r: String)
        ensures
            r@ == trait_text(*self),
    {
        let ghost all = self.methods@.map_values(|m: Function| function_text(m));
        let mut parts: Vec<String> = Vec::new();
        let mut i: usize = 0;
        while i < self.methods.len()
            invariant
                i <= self.methods@.len(),
                all == self.methods@.map_values(|m: Function| function_text(m)),
                views(parts@) == all.subrange(0, i as int),
            decreases self.methods@.len() - i,
        {
            let ghost before = views(parts@);
            let t = self.methods[i].to_string();
            parts.push(t);
            assert(views(parts@) =~= before.push(t@));
            assert(all.subrange(0, i + 1) =~= all.subrange(0, i as int).push(all[i as int]));
            i = i + 1;
        }
        assert(all.subrange(0, all.len() as int) =~= all);
        let mut r = String::from_str("pub trait ");
        r.append(self.name.as_str());
        r.append(type_parameters_string(&self.type_parameters).as_str());
        r.append(" {\n    ");
        r.append(join_strings(parts.as_slice(), "\n    ").as_str());
        r.append("\n}");
        r
    }
}

impl Macro {
    /// The definition, after the trimmed doc comment if any.
    pub fn to_string(&self) -> (r: String)
        ensures
            r@ == macro_text(*self),
    {
        match &self.doc_comment {
            Some(d) => {
                let mut r = trim_str(d.as_str());
                r.append("\n");
                r.append(self.definition.as_str());
                r
            },
            None => self.definition.clone(),
        }
    }
}

impl RustPublicMember {
    /// The text the member is presented by.
    pub fn to_string(&self) -> (r: String)
        ensures
            r@ == member_text(*self),
    {
        match self {
            RustPublicMember::Function(f) => f.to_string(),
            RustPublicMember::Struct(s) => s.to_string(),
            RustPublicMember::Enum(e) => e.to_string(),
            RustPublicMember::Trait(t) => t.to_string(),
            RustPublicMember::Macro(m) => m.to_string(),
        }
    }
}

impl RustPublicMember {
    /// A member known only by its text: a nameless macro whose definition is the text.
    pub fn from(s: String) -> (r: RustPublicMember)
        ensures
            r matches RustPublicMember::Macro(m) && m.name@ == Seq::<char>::empty() && m.definition == s
                && m.doc_comment is None,
    {
        RustPublicMember::Macro(Macro { name: String::new(), definition: s, doc_comment: None })
    }
}

} // verus!

verus! {

/// A member known only by its text is presented by exactly that text.
pub proof fn lemma_text_member_round_trip(name: String, definition: String)
    ensures
        member_text(RustPublicMember::Macro(Macro { name, definition, doc_comment: None })) == definition@,
{
}

} // verus!
