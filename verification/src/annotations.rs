//! The `# sig:`, `# pre:`, `# post:` and `# extern:` annotations.

use vstd::prelude::*;

use crate::ast::{expr_wf, mentions, Expr, Type};
use crate::extractor::ExtractedFunction;
use crate::parser::{expr_outcome, parse_expr, parses_to};
use crate::extractor::{text_end, text_start};
use crate::text::{chars_of, copy_string, decimal, find_from, lemma_listed_push, listed, push_str, push_string, push_u64, slice_string, starts_with_at, str_to_string, string_eq, string_less, trim_bounds, seq_less, lemma_seq_less_trans, lemma_seq_less_total, has_prefix, trim, lemma_trim_bounds};

verus! {

/// The contract of an annotated function.
#[derive(Debug, PartialEq, Eq)]
pub struct FunctionSpec {
    pub name: String,
    pub arg_types: Vec<Type>,
    pub ret_type: Type,
    pub pre: Expr,
    pub post: Expr,
}

impl View for FunctionSpec {
    type V = FunctionSpec;

    open spec fn view(&self) -> FunctionSpec {
        *self
    }
}

impl FunctionSpec {
    /// Both conditions are well formed.
    pub open spec fn wf(&self) -> bool {
        expr_wf(self.pre) && expr_wf(self.post)
    }
}

/// The contract of a function defined outside the file.
#[derive(Debug, PartialEq, Eq)]
pub struct ExternSpec {
    pub name: String,
    pub param_types: Vec<Type>,
    pub return_type: Type,
    pub precondition: Expr,
    pub postcondition: Expr,
}


/// Adds to `out` the names that some expression of `args` mentions.
fn collect_variables_of_all(args: &Vec<Expr>, out: &mut Vec<String>)
    ensures
        forall|n: Seq<char>| #[trigger] listed(final(out)@, n) <==> listed(old(out)@, n) || exists|j: int|
            0 <= j < args@.len() && mentions(#[trigger] args@[j], n),
    decreases args,
{
    let ghost start = out@;
    let mut i: usize = 0;
    while i < args.len()
        invariant
            i <= args@.len(),
            forall|n: Seq<char>| #[trigger] listed(out@, n) <==> listed(start, n) || exists|j: int|
                0 <= j < i && mentions(#[trigger] args@[j], n),
        decreases args.len() - i,
    {
        proof {
            assert(decreases_to!(*args => args@[i as int]));
        }
        let ghost before = out@;
        collect_variables(&args[i], out);
        proof {
            assert forall|n: Seq<char>| #[trigger] listed(out@, n) <==> listed(start, n) || exists|j: int|
                0 <= j < i + 1 && mentions(#[trigger] args@[j], n) by {
                if mentions(args@[i as int], n) {
                    assert(listed(out@, n));
                }
                if exists|j: int| 0 <= j < i + 1 && mentions(#[trigger] args@[j], n) {
                    let j = choose|j: int| 0 <= j < i + 1 && mentions(#[trigger] args@[j], n);
                    if j < i {
                        assert(listed(before, n));
                    }
                }
                if listed(out@, n) && !listed(start, n) {
                    if listed(before, n) {
                        let j = choose|j: int| 0 <= j < i && mentions(#[trigger] args@[j], n);
                        assert(0 <= j < i + 1);
                    } else {
                        assert(mentions(args@[i as int], n));
                    }
                }
            }
        }
        i += 1;
    }
}

} // verus!

verus! {

pub const SIG_PREFIX: &'static str = "# sig:";

pub const PRE_PREFIX: &'static str = "# pre:";

pub const POST_PREFIX: &'static str = "# post:";

pub const POS_PREFIX: &'static str = "# pos:";

pub const EXTERN_PREFIX: &'static str = "# extern:";

/// A malformed annotation block or `# extern:` line.
#[derive(Debug, PartialEq, Eq)]
pub enum AnnotationError {
    MissingSignature { function: String },
    MissingPost { function: String },
    DuplicateDirective { function: String, directive: &'static str },
    UnknownAnnotation { function: String, annotation: String },
    InvalidSignature { function: String, signature: String },
    UnsupportedType { function: String, type_label: String },
    ParameterCountMismatch { function: String, type_count: usize, param_count: usize },
    InvalidParameterBinding { function: String },
    MissingVariable { function: String, variable: String },
    InvalidExpression { function: String, directive: &'static str, expression: String },
    InvalidExternDeclaration { declaration: String },
    UnsupportedExternType { name: String, type_label: String },
    InvalidExternExpression { name: String, expression: String },
}

impl AnnotationError {
    /// The text that reports the error.
    pub open spec fn describe(&self) -> Seq<char> {
        match self {
            AnnotationError::MissingSignature { function } => "function `"@ + function@ + "` is missing a `# sig:` annotation"@,
            AnnotationError::MissingPost { function } => "function `"@ + function@ + "` is missing a `# post:` annotation"@,
            AnnotationError::DuplicateDirective { function, directive } => "function `"@ + function@ + "` has duplicate `"@ + directive@ + "` annotations"@,
            AnnotationError::UnknownAnnotation { function, annotation } => "function `"@ + function@ + "` has an unknown annotation: "@ + annotation@,
            AnnotationError::InvalidSignature { function, signature } => "function `"@ + function@ + "` has an invalid signature: "@ + signature@,
            AnnotationError::UnsupportedType { function, type_label } => "function `"@ + function@ + "` uses unsupported type `"@ + type_label@ + "`"@,
            AnnotationError::ParameterCountMismatch { function, type_count, param_count } => "function `"@ + function@ + "` declares "@ + decimal(*type_count as nat) + " signature arguments but extracts "@ + decimal(*param_count as nat) + " parameters"@,
            AnnotationError::InvalidParameterBinding { function } => "function `"@ + function@ + "` cannot infer parameters from the body"@,
            AnnotationError::MissingVariable { function, variable } => "function `"@ + function@ + "` references unknown variable `$"@ + variable@ + "`"@,
            AnnotationError::InvalidExpression { function, directive, expression } => "function `"@ + function@ + "` has an invalid "@ + directive@ + " expression: "@ + expression@,
            AnnotationError::InvalidExternDeclaration { declaration } => "invalid extern declaration: "@ + declaration@,
            AnnotationError::UnsupportedExternType { name, type_label } => "extern `"@ + name@ + "` uses unsupported type `"@ + type_label@ + "`"@,
            AnnotationError::InvalidExternExpression { name, expression } => "extern `"@ + name@ + "` has an invalid expression: "@ + expression@,
        }
    }

    /// The text that reports the error.
    pub fn message(&self) -> (r: String)
        ensures
            r@ == self.describe(),
    {
        match self {
            AnnotationError::MissingSignature { function } => {
                let mut m = String::new();
                push_str(&mut m, "function `");
                push_string(&mut m, function);
                push_str(&mut m, "` is missing a `# sig:` annotation");
                m
            },
            AnnotationError::MissingPost { function } => {
                let mut m = String::new();
                push_str(&mut m, "function `");
                push_string(&mut m, function);
                push_str(&mut m, "` is missing a `# post:` annotation");
                m
            },
            AnnotationError::DuplicateDirective { function, directive } => {
                let mut m = String::new();
                push_str(&mut m, "function `");
                push_string(&mut m, function);
                push_str(&mut m, "` has duplicate `");
                push_str(&mut m, *directive);
                push_str(&mut m, "` annotations");
                m
            },
            AnnotationError::UnknownAnnotation { function, annotation } => {
                let mut m = String::new();
                push_str(&mut m, "function `");
                push_string(&mut m, function);
                push_str(&mut m, "` has an unknown annotation: ");
                push_string(&mut m, annotation);
                m
            },
            AnnotationError::InvalidSignature { function, signature } => {
                let mut m = String::new();
                push_str(&mut m, "function `");
                push_string(&mut m, function);
                push_str(&mut m, "` has an invalid signature: ");
                push_string(&mut m, signature);
                m
            },
            AnnotationError::UnsupportedType { function, type_label } => {
                let mut m = String::new();
                push_str(&mut m, "function `");
                push_string(&mut m, function);
                push_str(&mut m, "` uses unsupported type `");
                push_string(&mut m, type_label);
                push_str(&mut m, "`");
                m
            },
            AnnotationError::ParameterCountMismatch { function, type_count, param_count } => {
                let mut m = String::new();
                push_str(&mut m, "function `");
                push_string(&mut m, function);
                push_str(&mut m, "` declares ");
                push_u64(&mut m, *type_count as u64);
                push_str(&mut m, " signature arguments but extracts ");
                push_u64(&mut m, *param_count as u64);
                push_str(&mut m, " parameters");
                m
            },
            AnnotationError::InvalidParameterBinding { function } => {
                let mut m = String::new();
                push_str(&mut m, "function `");
                push_string(&mut m, function);
                push_str(&mut m, "` cannot infer parameters from the body");
                m
            },
            AnnotationError::MissingVariable { function, variable } => {
                let mut m = String::new();
                push_str(&mut m, "function `");
                push_string(&mut m, function);
                push_str(&mut m, "` references unknown variable `$");
                push_string(&mut m, variable);
                push_str(&mut m, "`");
                m
            },
            AnnotationError::InvalidExpression { function, directive, expression } => {
                let mut m = String::new();
                push_str(&mut m, "function `");
                push_string(&mut m, function);
                push_str(&mut m, "` has an invalid ");
                push_str(&mut m, *directive);
                push_str(&mut m, " expression: ");
                push_string(&mut m, expression);
                m
            },
            AnnotationError::InvalidExternDeclaration { declaration } => {
                let mut m = String::new();
                push_str(&mut m, "invalid extern declaration: ");
                push_string(&mut m, declaration);
                m
            },
            AnnotationError::UnsupportedExternType { name, type_label } => {
                let mut m = String::new();
                push_str(&mut m, "extern `");
                push_string(&mut m, name);
                push_str(&mut m, "` uses unsupported type `");
                push_string(&mut m, type_label);
                push_str(&mut m, "`");
                m
            },
            AnnotationError::InvalidExternExpression { name, expression } => {
                let mut m = String::new();
                push_str(&mut m, "extern `");
                push_string(&mut m, name);
                push_str(&mut m, "` has an invalid expression: ");
                push_string(&mut m, expression);
                m
            },
        }
    }
}


/// Adds to `out` the names of the variables, collections and arrays that `expr` mentions.
pub fn collect_variables(expr: &Expr, out: &mut Vec<String>)
    ensures
        forall|n: Seq<char>| #[trigger] listed(final(out)@, n) <==> listed(old(out)@, n) || mentions(*expr, n),
    decreases expr,
{
    match expr {
        Expr::Variable(name) => {
            let c = copy_string(name);
            proof {
                lemma_listed_push(out@, c);
            }
            out.push(c);
        },
        Expr::Pop { array } => {
            let c = copy_string(array);
            proof {
                lemma_listed_push(out@, c);
            }
            out.push(c);
        },
        Expr::Unary { expr: inner, .. } => collect_variables(inner, out),
        Expr::Binary { left, right, .. } => {
            collect_variables(left, out);
            collect_variables(right, out);
        },
        Expr::Ternary { condition, then_expr, else_expr } => {
            collect_variables(condition, out);
            collect_variables(then_expr, out);
            collect_variables(else_expr, out);
        },
        Expr::Access { collection, index, .. } => {
            let c = copy_string(collection);
            proof {
                lemma_listed_push(out@, c);
            }
            out.push(c);
            collect_variables(index, out);
        },
        Expr::Call { args, .. } => collect_variables_of_all(args, out),
        Expr::Builtin { args, .. } => collect_variables_of_all(args, out),
        Expr::Int(_) | Expr::Bool(_) | Expr::String(_) => {},
    }
}

} // verus!

verus! {

/// The type written as `s` in a signature.
pub open spec fn type_of_name(s: Seq<char>) -> Option<Type> {
    if s == "Int"@ || s == "I64"@ {
        Some(Type::Int)
    } else if s == "Str"@ {
        Some(Type::Str)
    } else if s == "Array<Int>"@ || s == "Array<I64>"@ {
        Some(Type::ArrayInt)
    } else if s == "Array<Str>"@ {
        Some(Type::ArrayStr)
    } else if s == "Hash<Str, Int>"@ || s == "Hash<Str, I64>"@ {
        Some(Type::HashInt)
    } else if s == "Hash<Str, Str>"@ {
        Some(Type::HashStr)
    } else {
        None
    }
}

/// The array type whose elements have scalar type `t`.
pub open spec fn array_of(t: Type) -> Option<Type> {
    match t {
        Type::Int => Some(Type::ArrayInt),
        Type::Str => Some(Type::ArrayStr),
        _ => None,
    }
}

/// The hash type whose values have scalar type `t`.
pub open spec fn hash_of(t: Type) -> Option<Type> {
    match t {
        Type::Int => Some(Type::HashInt),
        Type::Str => Some(Type::HashStr),
        _ => None,
    }
}

/// Law: the name under which messages write each type reads back as that type.
pub proof fn law_type_names_read_back(t: Type)
    ensures
        type_of_name(crate::ast::type_label(crate::ast::expr_type_of(t))@) == Some(t),
{
    reveal_strlit("Int");
    reveal_strlit("I64");
    reveal_strlit("Str");
    reveal_strlit("Array<Int>");
    reveal_strlit("Array<I64>");
    reveal_strlit("Array<Str>");
    reveal_strlit("Hash<Str, Int>");
    reveal_strlit("Hash<Str, I64>");
    reveal_strlit("Hash<Str, Str>");
    reveal_strlit("Bool");
    assert("Array<Str>"@[6] != "Array<Int>"@[6]);
    assert("Array<Str>"@[6] != "Array<I64>"@[6]);
    assert("Hash<Str, Str>"@[10] != "Hash<Str, Int>"@[10]);
    assert("Hash<Str, Str>"@[10] != "Hash<Str, I64>"@[10]);
    assert("Array<Int>"@[7] != "Array<I64>"@[7]);
    assert("Hash<Str, Int>"@[11] != "Hash<Str, I64>"@[11]);
    assert("Int"@[0] != "Str"@[0]);
    assert("I64"@[0] != "Str"@[0]);
    let name = crate::ast::type_label(crate::ast::expr_type_of(t))@;
    match t {
        Type::Int => assert(name == "Int"@),
        Type::Str => {
            assert(name == "Str"@);
            assert(name != "Int"@ && name != "I64"@);
        },
        Type::ArrayInt => {
            assert(name == "Array<Int>"@);
            assert(name.len() == 10);
        },
        Type::ArrayStr => {
            assert(name == "Array<Str>"@);
            assert(name.len() == 10);
            assert(name != "Array<Int>"@ && name != "Array<I64>"@);
        },
        Type::HashInt => {
            assert(name == "Hash<Str, Int>"@);
            assert(name.len() == 14);
        },
        Type::HashStr => {
            assert(name == "Hash<Str, Str>"@);
            assert(name.len() == 14);
            assert(name != "Hash<Str, Int>"@ && name != "Hash<Str, I64>"@);
        },
    }
}

/// Law: `Array<T>` names the array of elements of type `T`, and
/// `Hash<Str, T>` the hash of values of type `T`, for each scalar type name `T`.
pub proof fn law_collection_type_names_compose(x: Seq<char>)
    requires
        type_of_name(x) == Some(Type::Int) || type_of_name(x) == Some(Type::Str),
    ensures
        type_of_name("Array<"@ + x + ">"@) == array_of(type_of_name(x)->0),
        type_of_name("Hash<Str, "@ + x + ">"@) == hash_of(type_of_name(x)->0),
{
    reveal_strlit("Int");
    reveal_strlit("I64");
    reveal_strlit("Str");
    reveal_strlit("Array<Int>");
    reveal_strlit("Array<I64>");
    reveal_strlit("Array<Str>");
    reveal_strlit("Hash<Str, Int>");
    reveal_strlit("Hash<Str, I64>");
    reveal_strlit("Hash<Str, Str>");
    reveal_strlit("Array<");
    reveal_strlit(">");
    reveal_strlit("Hash<Str, ");
    let a = "Array<"@ + x + ">"@;
    let h = "Hash<Str, "@ + x + ">"@;
    if x == "Int"@ {
        assert(a =~= "Array<Int>"@);
        assert(h =~= "Hash<Str, Int>"@);
    } else if x == "I64"@ {
        assert(a =~= "Array<I64>"@);
        assert(h =~= "Hash<Str, I64>"@);
    } else {
        assert(x == "Str"@);
        assert(a =~= "Array<Str>"@);
        assert(h =~= "Hash<Str, Str>"@);
        assert("Array<Str>"@[6] != "Array<Int>"@[6]);
        assert("Array<Str>"@[6] != "Array<I64>"@[6]);
        assert("Hash<Str, Str>"@[10] != "Hash<Str, Int>"@[10]);
        assert("Hash<Str, Str>"@[10] != "Hash<Str, I64>"@[10]);
    }
}

fn word_eq(s: &String, w: &str) -> (r: bool)
    ensures
        r == (s@ == w@),
{
    let ws = str_to_string(w);
    string_eq(s, &ws)
}

/// The type named `raw`.
fn parse_type(function: &str, raw: &String) -> (r: Result<Type, AnnotationError>)
    ensures
        match r {
            Ok(t) => type_of_name(raw@) == Some(t),
            Err(e) => type_of_name(raw@) is None && e == (AnnotationError::UnsupportedType {
                function: e->UnsupportedType_function,
                type_label: e->UnsupportedType_type_label,
            }) && e->UnsupportedType_type_label@ == raw@,
        },
{
    if word_eq(raw, "Int") || word_eq(raw, "I64") {
        Ok(Type::Int)
    } else if word_eq(raw, "Str") {
        Ok(Type::Str)
    } else if word_eq(raw, "Array<Int>") || word_eq(raw, "Array<I64>") {
        Ok(Type::ArrayInt)
    } else if word_eq(raw, "Array<Str>") {
        Ok(Type::ArrayStr)
    } else if word_eq(raw, "Hash<Str, Int>") || word_eq(raw, "Hash<Str, I64>") {
        Ok(Type::HashInt)
    } else if word_eq(raw, "Hash<Str, Str>") {
        Ok(Type::HashStr)
    } else {
        Err(AnnotationError::UnsupportedType { function: str_to_string(function), type_label: copy_string(raw) })
    }
}

/// The text of `s[a..e]` without its surrounding spaces, as a part of a
/// list: nothing when that text is empty.
pub open spec fn trimmed_part(s: Seq<char>, a: int, e: int) -> Seq<Seq<char>> {
    let x = text_start(s, a, e);
    let y = text_end(s, x, e);
    if x < y {
        seq![s.subrange(x, y)]
    } else {
        Seq::empty()
    }
}

/// The parts of `s[.., end]` from the part that began at `part_start`,
/// scanning from `i` with `depth` unclosed `<`: split at each `,` outside
/// `<...>`, each trimmed, empty parts left out.
pub open spec fn type_parts(s: Seq<char>, part_start: int, i: int, end: int, depth: int) -> Seq<Seq<char>>
    decreases end - i,
{
    if i >= end {
        trimmed_part(s, part_start, end)
    } else if s[i] == '<' {
        type_parts(s, part_start, i + 1, end, if depth < i64::MAX { depth + 1 } else { depth })
    } else if s[i] == '>' {
        type_parts(s, part_start, i + 1, end, if depth > i64::MIN { depth - 1 } else { depth })
    } else if s[i] == ',' && depth == 0 {
        trimmed_part(s, part_start, i) + type_parts(s, i + 1, i + 1, end, depth)
    } else {
        type_parts(s, part_start, i + 1, end, depth)
    }
}

/// The first position `k` from `i` on with `s[k..end]` starting with `->`.
pub open spec fn arrow_from(s: Seq<char>, i: int, end: int) -> Option<int>
    decreases end + 1 - i,
{
    if i > end {
        None
    } else if has_prefix(s, i, end, "->"@) {
        Some(i)
    } else {
        arrow_from(s, i + 1, end)
    }
}

/// The argument parts and the return part of a signature `(T1, T2, ...) -> T`
/// written in `s[start..end]`, or `None` when it is not of that shape.
pub open spec fn signature_shape(s: Seq<char>, start: int, end: int) -> Option<(Seq<Seq<char>>, Seq<char>)> {
    match arrow_from(s, start, end) {
        None => None,
        Some(arrow) => {
            let a = text_start(s, start, arrow);
            let b = text_end(s, a, arrow);
            if !(a < b && s[a] == '(' && s[b - 1] == ')' && a + 1 <= b - 1) {
                None
            } else {
                let ra = text_start(s, arrow + 2, end);
                Some((type_parts(s, a + 1, a + 1, b - 1, 0), s.subrange(ra, text_end(s, ra, end))))
            }
        },
    }
}

/// The types that the parts name, where each names one.
pub open spec fn types_named(parts: Seq<Seq<char>>) -> Seq<Type> {
    parts.map_values(|t: Seq<char>| type_of_name(t)->0)
}

/// The strings as values.
pub open spec fn texts(v: Seq<String>) -> Seq<Seq<char>> {
    v.map_values(|x: String| x@)
}

/// The comma-separated parts of `chars[start..end]`, split only outside
/// `<...>`, each trimmed, with empty parts left out.
fn split_signature_types(chars: &Vec<char>, start: usize, end: usize) -> (r: Vec<String>)
    requires
        start <= end <= chars@.len(),
    ensures
        texts(r@) == type_parts(chars@, start as int, start as int, end as int, 0),
{
    let mut parts: Vec<String> = Vec::new();
    let mut part_start = start;
    let mut depth: i64 = 0;
    let mut i = start;
    proof {
        assert(texts(parts@) =~= Seq::<Seq<char>>::empty());
        assert(Seq::<Seq<char>>::empty() + type_parts(chars@, start as int, start as int, end as int, 0)
            =~= type_parts(chars@, start as int, start as int, end as int, 0));
    }
    while i < end
        invariant
            start <= part_start <= i <= end <= chars@.len(),
            type_parts(chars@, start as int, start as int, end as int, 0) == texts(parts@) + type_parts(
                chars@,
                part_start as int,
                i as int,
                end as int,
                depth as int,
            ),
        decreases end - i,
    {
        let c = chars[i];
        if c == '<' {
            if depth < i64::MAX {
                depth = depth + 1;
            }
        } else if c == '>' {
            if depth > i64::MIN {
                depth = depth - 1;
            }
        } else if c == ',' && depth == 0 {
            let a = crate::extractor::skip_spaces(chars, part_start, i);
            let b = crate::extractor::drop_spaces(chars, a, i);
            let ghost before = texts(parts@);
            let ghost rest = type_parts(chars@, (i + 1) as int, (i + 1) as int, end as int, depth as int);
            if a < b {
                let part = slice_string(chars, a, b);
                parts.push(part);
                proof {
                    assert(texts(parts@) =~= before.push(part@));
                    assert(before + (seq![part@] + rest) =~= before.push(part@) + rest);
                }
            } else {
                proof {
                    assert(before + (Seq::<Seq<char>>::empty() + rest) =~= before + rest);
                }
            }
            part_start = i + 1;
        }
        i += 1;
    }
    let a = crate::extractor::skip_spaces(chars, part_start, end);
    let b = crate::extractor::drop_spaces(chars, a, end);
    let ghost before = texts(parts@);
    if a < b {
        let part = slice_string(chars, a, b);
        parts.push(part);
        proof {
            assert(texts(parts@) =~= before.push(part@));
            assert(before + seq![part@] =~= before.push(part@));
        }
    } else {
        proof {
            assert(before + Seq::<Seq<char>>::empty() =~= before);
        }
    }
    parts
}

/// `find_from`'s first occurrence of `->` is `arrow_from`.
proof fn lemma_arrow_from(s: Seq<char>, i: int, end: int, k: Option<int>)
    requires
        i <= end + 1,
        match k {
            Some(k) => i <= k <= end && has_prefix(s, k, end, "->"@) && forall|j: int|
                i <= j < k ==> !#[trigger] has_prefix(s, j, end, "->"@),
            None => forall|j: int| i <= j <= end ==> !#[trigger] has_prefix(s, j, end, "->"@),
        },
    ensures
        arrow_from(s, i, end) == k,
    decreases end + 1 - i,
{
    if i <= end && !has_prefix(s, i, end, "->"@) {
        lemma_arrow_from(s, i + 1, end, k);
    }
}

/// Parses `(T1, T2, ...) -> T` from `chars[start..end]`; `None` when it is not of that shape.
fn parse_signature_parts(chars: &Vec<char>, start: usize, end: usize) -> (r: Option<(Vec<String>, String)>)
    requires
        start <= end <= chars@.len(),
    ensures
        match signature_shape(chars@, start as int, end as int) {
            Some((args, ret)) => r matches Some((a, t)) && texts(a@) == args && t@ == ret,
            None => r is None,
        },
{
    proof {
        reveal_strlit("->");
    }
    let arrow = match find_from(chars, start, end, "->") {
        Some(k) => k,
        None => {
            proof {
                lemma_arrow_from(chars@, start as int, end as int, None);
            }
            return None;
        },
    };
    proof {
        lemma_arrow_from(chars@, start as int, end as int, Some(arrow as int));
    }
    let a = crate::extractor::skip_spaces(chars, start, arrow);
    let b = crate::extractor::drop_spaces(chars, a, arrow);
    if !(a < b && chars[a] == '(' && chars[b - 1] == ')' && a + 1 <= b - 1) {
        return None;
    }
    let args = split_signature_types(chars, a + 1, b - 1);
    let ra = crate::extractor::skip_spaces(chars, arrow + 2, end);
    let rb = crate::extractor::drop_spaces(chars, ra, end);
    Some((args, slice_string(chars, ra, rb)))
}

/// The types of a `# sig:` annotation.
#[verifier::loop_isolation(false)]
fn parse_signature(function: &str, signature: &String) -> (r: Result<(Vec<Type>, Type), AnnotationError>)
    ensures
        match signature_shape(signature@, 0, signature@.len() as int) {
            None => r matches Err(AnnotationError::InvalidSignature { function: f, signature: g }) && f@ == function@
                && g@ == signature@,
            Some((args, ret)) => if (forall|i: int| 0 <= i < args.len() ==> (#[trigger] type_of_name(args[i])) is Some)
                && type_of_name(ret) is Some {
                r matches Ok((ts, t)) && ts@ == types_named(args) && t == type_of_name(ret)->0
            } else {
                r matches Err(AnnotationError::UnsupportedType { .. })
            },
        },
{
    let chars = chars_of(signature.as_str());
    let (args, ret) = match parse_signature_parts(&chars, 0, chars.len()) {
        Some(p) => p,
        None => {
            return Err(
                AnnotationError::InvalidSignature { function: str_to_string(function), signature: copy_string(signature) },
            );
        },
    };
    let ghost parts = texts(args@);
    let mut types: Vec<Type> = Vec::new();
    let mut i: usize = 0;
    while i < args.len()
        invariant
            i <= args@.len(),
            parts == texts(args@),
            types@.len() == i,
            forall|j: int| 0 <= j < i ==> type_of_name(#[trigger] parts[j]) == Some(types@[j]),
        decreases args.len() - i,
    {
        match parse_type(function, &args[i]) {
            Ok(t) => types.push(t),
            Err(e) => {
                assert(type_of_name(parts[i as int]) is None);
                return Err(e);
            },
        }
        i += 1;
    }
    let ret_type = parse_type(function, &ret)?;
    proof {
        assert(types@ =~= types_named(parts));
    }
    Ok((types, ret_type))
}

/// The position of the first `\n` of `s` from `i` on, or the end of `s`.
pub open spec fn newline_from(s: Seq<char>, i: int) -> int
    decreases s.len() - i,
{
    if i >= s.len() {
        s.len() as int
    } else if s[i] == '\n' {
        i
    } else {
        newline_from(s, i + 1)
    }
}

/// The first position of `s[a..b]` that holds `c`.
pub open spec fn char_in(s: Seq<char>, a: int, b: int, c: char) -> Option<int>
    decreases b - a,
{
    if a >= b {
        None
    } else if s[a] == c {
        Some(a)
    } else {
        char_in(s, a + 1, b, c)
    }
}

/// The names of the comma-separated parts of `s[start..close]` from the part
/// that began at `start`, scanning from `i`: each part, without its
/// surrounding spaces, is `$` and a name; `None` where one is not.
pub open spec fn param_parts(s: Seq<char>, start: int, i: int, close: int) -> Option<Seq<Seq<char>>>
    decreases close + 1 - i,
{
    if i > close {
        Some(Seq::empty())
    } else if i == close || s[i] == ',' {
        let pa = text_start(s, start, i);
        let pb = text_end(s, pa, i);
        if pa < pb && s[pa] == '$' && pa + 1 < pb {
            match param_parts(s, i + 1, i + 1, close) {
                Some(rest) => Some(seq![s.subrange(pa + 1, pb)] + rest),
                None => None,
            }
        } else {
            None
        }
    } else {
        param_parts(s, start, i + 1, close)
    }
}

/// The parameter names that the line `s[a..b]` binds, where it is `my (...) = @_;`.
pub open spec fn binding_names(s: Seq<char>, a: int, b: int) -> Option<Seq<Seq<char>>> {
    if !has_prefix(s, a, b, "my ("@) {
        None
    } else {
        match char_in(s, a + 4, b, ')') {
            None => None,
            Some(close) => {
                let sa = text_start(s, close + 1, b);
                if s.subrange(sa, text_end(s, sa, b)) != "= @_;"@ {
                    None
                } else {
                    param_parts(s, a + 4, a + 4, close)
                }
            },
        }
    }
}

/// The parameter names bound on the first line of `s` from `ls` on that is not blank.
pub open spec fn names_from_line(s: Seq<char>, ls: int) -> Option<Seq<Seq<char>>>
    decreases s.len() - ls,
{
    if ls < 0 || ls > s.len() {
        None
    } else {
        let le = newline_from(s, ls);
        let a = text_start(s, ls, le);
        let b = text_end(s, a, le);
        if a < b {
            binding_names(s, a, b)
        } else if le >= s.len() {
            None
        } else {
            proof {
                lemma_newline_from(s, ls);
            }
            names_from_line(s, le + 1)
        }
    }
}

/// The parameter names of a function body: those of `my ($a, $b) = @_;` on
/// its first line that is not blank.
pub open spec fn param_names(body: Seq<char>) -> Option<Seq<Seq<char>>> {
    names_from_line(body, 0)
}

/// The next line break is not before `i`.
pub proof fn lemma_newline_from(s: Seq<char>, i: int)
    requires
        0 <= i <= s.len(),
    ensures
        i <= newline_from(s, i) <= s.len(),
    decreases s.len() - i,
{
    if i < s.len() && s[i] != '\n' {
        lemma_newline_from(s, i + 1);
    }
}

/// Decides `newline_from`.
fn next_newline(chars: &Vec<char>, i: usize) -> (r: usize)
    requires
        i <= chars@.len(),
    ensures
        r == newline_from(chars@, i as int),
        i <= r <= chars@.len(),
{
    let mut k = i;
    while k < chars.len() && chars[k] != '\n'
        invariant
            i <= k <= chars@.len(),
            newline_from(chars@, i as int) == newline_from(chars@, k as int),
        decreases chars.len() - k,
    {
        k += 1;
    }
    k
}

/// Decides `char_in`.
fn find_char(chars: &Vec<char>, a: usize, b: usize, c: char) -> (r: Option<usize>)
    requires
        a <= b <= chars@.len(),
    ensures
        match char_in(chars@, a as int, b as int, c) {
            Some(k) => r == Some(k as usize) && a <= k < b,
            None => r is None,
        },
{
    let mut k = a;
    while k < b
        invariant
            a <= k <= b <= chars@.len(),
            char_in(chars@, a as int, b as int, c) == char_in(chars@, k as int, b as int, c),
        decreases b - k,
    {
        if chars[k] == c {
            return Some(k);
        }
        k += 1;
    }
    None
}

/// The names as values.
pub open spec fn name_values(v: Seq<String>) -> Seq<Seq<char>> {
    v.map_values(|x: String| x@)
}

/// The parameter names of `my ($a, $b) = @_;` on the first non-blank line of `body`.
fn infer_param_names(body: &String) -> (r: Option<Vec<String>>)
    ensures
        match param_names(body@) {
            Some(ns) => r matches Some(v) && name_values(v@) == ns,
            None => r is None,
        },
{
    let chars = chars_of(body.as_str());
    let n = chars.len();
    let mut line_start: usize = 0;
    loop
        invariant
            line_start <= n,
            n == chars@.len(),
            chars@ == body@,
            param_names(body@) == names_from_line(body@, line_start as int),
        decreases n + 1 - line_start,
    {
        let line_end = next_newline(&chars, line_start);
        let a = crate::extractor::skip_spaces(&chars, line_start, line_end);
        let b = crate::extractor::drop_spaces(&chars, a, line_end);
        if a < b {
            return params_of_binding(&chars, a, b);
        }
        if line_end >= n {
            return None;
        }
        line_start = line_end + 1;
    }
}

/// Names found so far, followed by those of the rest.
pub open spec fn names_then(found: Seq<Seq<char>>, rest: Option<Seq<Seq<char>>>) -> Option<Seq<Seq<char>>> {
    match rest {
        Some(r) => Some(found + r),
        None => None,
    }
}

/// The parameter names that `chars[a..b]` binds.
#[verifier::loop_isolation(false)]
fn params_of_binding(chars: &Vec<char>, a: usize, b: usize) -> (r: Option<Vec<String>>)
    requires
        a <= b <= chars@.len(),
    ensures
        match binding_names(chars@, a as int, b as int) {
            Some(ns) => r matches Some(v) && name_values(v@) == ns,
            None => r is None,
        },
{
    proof {
        reveal_strlit("my (");
    }
    if !starts_with_at(chars, a, b, "my (") {
        return None;
    }
    let vars_start = a + 4;
    let close = match find_char(chars, vars_start, b, ')') {
        Some(k) => k,
        None => {
            return None;
        },
    };
    let sa = crate::extractor::skip_spaces(chars, close + 1, b);
    let sb = crate::extractor::drop_spaces(chars, sa, b);
    let suffix = slice_string(chars, sa, sb);
    if !word_eq(&suffix, "= @_;") {
        return None;
    }
    let mut names: Vec<String> = Vec::new();
    let mut part_start = vars_start;
    let mut i = vars_start;
    proof {
        assert(name_values(names@) =~= Seq::<Seq<char>>::empty());
        assert(Seq::<Seq<char>>::empty() + param_parts(chars@, vars_start as int, vars_start as int, close as int)->0
            =~= param_parts(chars@, vars_start as int, vars_start as int, close as int)->0);
    }
    while i <= close
        invariant
            vars_start <= part_start <= i,
            i <= close + 1,
            close < b <= chars@.len(),
            param_parts(chars@, vars_start as int, vars_start as int, close as int) == names_then(
                name_values(names@),
                param_parts(chars@, part_start as int, i as int, close as int),
            ),
        decreases close + 1 - i,
    {
        if i == close || chars[i] == ',' {
            let pa = crate::extractor::skip_spaces(chars, part_start, i);
            let pb = crate::extractor::drop_spaces(chars, pa, i);
            if !(pa < pb && chars[pa] == '$' && pa + 1 < pb) {
                return None;
            }
            let name = slice_string(chars, pa + 1, pb);
            proof {
                let found = name_values(names@);
                assert(name_values(names@.push(name)) =~= found.push(name@));
                let rest = param_parts(chars@, i + 1, i + 1, close as int);
                if let Some(r) = rest {
                    assert(found + (seq![name@] + r) =~= found.push(name@) + r);
                }
            }
            names.push(name);
            part_start = i + 1;
        }
        i += 1;
    }
    proof {
        assert(name_values(names@) + Seq::<Seq<char>>::empty() =~= name_values(names@));
    }
    Some(names)
}

/// The names a condition may use: the parameters and `result`.
pub open spec fn allowed_name(params: Seq<String>, n: Seq<char>) -> bool {
    listed(params, n) || n == "result"@
}

fn is_allowed(params: &Vec<String>, n: &String) -> (r: bool)
    ensures
        r == allowed_name(params@, n@),
{
    if word_eq(n, "result") {
        return true;
    }
    let mut i: usize = 0;
    while i < params.len()
        invariant
            i <= params@.len(),
            forall|j: int| 0 <= j < i ==> (#[trigger] params@[j])@ != n@,
        decreases params.len() - i,
    {
        if string_eq(&params[i], n) {
            return true;
        }
        i += 1;
    }
    false
}

/// Checks that `expr` uses only the parameters and `result`; otherwise names
/// the first unknown variable in alphabetical order.
pub fn validate_variables(function: &str, params: &Vec<String>, expr: &Expr) -> (r: Result<(), AnnotationError>)
    ensures
        match r {
            Ok(()) => forall|n: Seq<char>| mentions(*expr, n) ==> allowed_name(params@, n),
            Err(e) => e matches AnnotationError::MissingVariable { function: f, variable: v } && f@ == function@
                && mentions(*expr, v@) && !allowed_name(params@, v@) && forall|n: Seq<char>|
                mentions(*expr, n) && !allowed_name(params@, n) && n != v@ ==> seq_less(v@, n),
        },
{
    let mut names: Vec<String> = Vec::new();
    collect_variables(expr, &mut names);
    let mut worst: Option<usize> = None;
    let mut i: usize = 0;
    while i < names.len()
        invariant
            i <= names@.len(),
            forall|n: Seq<char>| #[trigger] listed(names@, n) <==> mentions(*expr, n),
            match worst {
                Some(k) => k < i && !allowed_name(params@, names@[k as int]@) && forall|j: int|
                    0 <= j < i && !allowed_name(params@, (#[trigger] names@[j])@) && names@[j]@ != names@[k as int]@
                        ==> seq_less(names@[k as int]@, names@[j]@),
                None => forall|j: int| 0 <= j < i ==> allowed_name(params@, (#[trigger] names@[j])@),
            },
        decreases names.len() - i,
    {
        if !is_allowed(params, &names[i]) {
            worst = match worst {
                None => Some(i),
                Some(k) => if string_less(&names[i], &names[k]) {
                    proof {
                        assert forall|j: int|
                            0 <= j < i && !allowed_name(params@, (#[trigger] names@[j])@) && names@[j]@ != names@[i as int]@
                                implies seq_less(names@[i as int]@, names@[j]@) by {
                            if names@[j]@ != names@[k as int]@ {
                                lemma_seq_less_trans(names@[i as int]@, names@[k as int]@, names@[j]@);
                            }
                        }
                    }
                    Some(i)
                } else {
                    proof {
                        lemma_seq_less_total(names@[i as int]@, names@[k as int]@);
                    }
                    Some(k)
                },
            };
        }
        i += 1;
    }
    match worst {
        None => {
            proof {
                assert forall|n: Seq<char>| mentions(*expr, n) implies allowed_name(params@, n) by {
                    assert(listed(names@, n));
                    let j = choose|j: int| 0 <= j < names@.len() && (#[trigger] names@[j])@ == n;
                    assert(allowed_name(params@, names@[j]@));
                }
            }
            Ok(())
        },
        Some(k) => {
            proof {
                assert(listed(names@, names@[k as int]@));
                assert forall|n: Seq<char>|
                    mentions(*expr, n) && !allowed_name(params@, n) && n != names@[k as int]@ implies seq_less(
                    names@[k as int]@,
                    n,
                ) by {
                    assert(listed(names@, n));
                    let j = choose|j: int| 0 <= j < names@.len() && (#[trigger] names@[j])@ == n;
                    assert(!allowed_name(params@, names@[j]@));
                }
            }
            Err(AnnotationError::MissingVariable { function: str_to_string(function), variable: copy_string(&names[k]) })
        },
    }
}

/// The expression of a `# pre:` or `# post:` annotation.
fn parse_expression(function: &str, directive: &'static str, expression: &String) -> (r: Result<Expr, AnnotationError>)
    ensures
        r matches Ok(e) ==> expr_wf(e),
        r matches Ok(e) ==> crate::parser::parses_to(expression@, e),
        r is Ok <==> crate::parser::expr_outcome(expression@) is Some,
        r matches Err(e) ==> (e matches AnnotationError::InvalidExpression { function: f, directive: d, expression: x }
            && f@ == function@ && d == directive && x@ == expression@),
{
    match parse_expr(expression.as_str()) {
        Ok(e) => Ok(e),
        Err(_) => Err(
            AnnotationError::InvalidExpression {
                function: str_to_string(function),
                directive,
                expression: copy_string(expression),
            },
        ),
    }
}

/// The text after `prefix` in the trimmed `line`, trimmed, when the trimmed line starts with it.
fn strip_directive(chars: &Vec<char>, a: usize, b: usize, prefix: &str) -> (r: Option<String>)
    requires
        a <= b <= chars@.len(),
    ensures
        r is Some <==> has_prefix(chars@, a as int, b as int, prefix@),
        r matches Some(t) ==> t@ == trim(chars@.subrange(a + prefix@.len(), b as int)),
{
    if starts_with_at(chars, a, b, prefix) {
        let p = chars_of(prefix);
        let (x, y) = trim_bounds(chars, a + p.len(), b);
        proof {
            lemma_trim_bounds(chars@, a + p@.len(), b as int, x as int, y as int);
        }
        Some(slice_string(chars, x, y))
    } else {
        None
    }
}

/// After its surrounding spaces, `line` starts with `prefix`.
pub open spec fn directive(line: Seq<char>, prefix: Seq<char>) -> bool {
    prefix.len() <= trim(line).len() && trim(line).subrange(0, prefix.len() as int) == prefix
}

/// `line` is a `# sig:` annotation.
pub open spec fn sig_line(line: Seq<char>) -> bool {
    directive(line, SIG_PREFIX@)
}

/// `line` is a `# pre:` annotation.
pub open spec fn pre_line(line: Seq<char>) -> bool {
    !sig_line(line) && directive(line, PRE_PREFIX@)
}

/// `line` is a `# post:` annotation, also written `# pos:`.
pub open spec fn post_line(line: Seq<char>) -> bool {
    !sig_line(line) && !pre_line(line) && (directive(line, POST_PREFIX@) || directive(line, POS_PREFIX@))
}

/// Exactly one of `lines` satisfies `p`.
pub open spec fn exactly_one(lines: Seq<String>, p: spec_fn(Seq<char>) -> bool) -> bool {
    &&& exists|j: int| 0 <= j < lines.len() && p(#[trigger] lines[j]@)
    &&& at_most_one(lines, p)
}

/// At most one of `lines` satisfies `p`.
pub open spec fn at_most_one(lines: Seq<String>, p: spec_fn(Seq<char>) -> bool) -> bool {
    forall|j1: int, j2: int|
        0 <= j1 < lines.len() && 0 <= j2 < lines.len() && p(#[trigger] lines[j1]@) && p(#[trigger] lines[j2]@)
            ==> j1 == j2
}

/// A prefix found at trimmed bounds is a directive of the line.
proof fn lemma_directive(chars: Seq<char>, a: int, b: int, p: Seq<char>)
    requires
        0 <= a <= b <= chars.len(),
        chars.subrange(a, b) == trim(chars),
    ensures
        has_prefix(chars, a, b, p) == directive(chars, p),
{
    if a + p.len() <= b {
        assert(chars.subrange(a, a + p.len()) =~= chars.subrange(a, b).subrange(0, p.len() as int));
    }
}

/// The text after `prefix` in the trimmed `line`, trimmed.
pub open spec fn directive_text(line: Seq<char>, prefix: Seq<char>) -> Seq<char> {
    trim(trim(line).subrange(prefix.len() as int, trim(line).len() as int))
}

/// The condition text of a `# post:` (or `# pos:`) line.
pub open spec fn post_text(line: Seq<char>) -> Seq<char> {
    if directive(line, POST_PREFIX@) {
        directive_text(line, POST_PREFIX@)
    } else {
        directive_text(line, POS_PREFIX@)
    }
}

/// The parameter and return types that a signature text names, when it has
/// the shape `(T1, ...) -> T` and names only types of the language.
pub open spec fn signature_types(text: Seq<char>) -> Option<(Seq<Type>, Type)> {
    match signature_shape(text, 0, text.len() as int) {
        Some((args, ret)) => if all_named(args) && type_of_name(ret) is Some {
            Some((types_named(args), type_of_name(ret)->0))
        } else {
            None
        },
        None => None,
    }
}

/// A condition text makes up one expression whose variables are all
/// parameters (`ns`) or `$result`.
pub open spec fn condition_ok(text: Seq<char>, ns: Seq<Seq<char>>) -> bool {
    match expr_outcome(text) {
        Some(v) => forall|n: Seq<char>| crate::facts::mentions_v(v, n) ==> n == "result"@ || ns.contains(n),
        None => false,
    }
}

/// The annotations of `function` make a contract: its body binds its
/// parameters; each annotation is a `# sig:`, `# pre:` or `# post:` line;
/// there is one signature, at most one precondition and one postcondition;
/// the signature names one type of the language per parameter and a return
/// type; and each condition is an expression over the parameters and `$result`.
pub open spec fn contract_ok(function: ExtractedFunction) -> bool {
    let lines = function.annotations@;
    match param_names(function.body@) {
        None => false,
        Some(ns) => {
            &&& forall|j: int|
                0 <= j < lines.len() ==> sig_line(#[trigger] lines[j]@) || pre_line(lines[j]@) || post_line(lines[j]@)
            &&& exactly_one(lines, |l: Seq<char>| sig_line(l))
            &&& at_most_one(lines, |l: Seq<char>| pre_line(l))
            &&& exactly_one(lines, |l: Seq<char>| post_line(l))
            &&& forall|j: int| 0 <= j < lines.len() && sig_line(#[trigger] lines[j]@) ==> (signature_types(
                directive_text(lines[j]@, SIG_PREFIX@),
            ) matches Some((ts, _)) && ts.len() == ns.len())
            &&& forall|j: int| 0 <= j < lines.len() && pre_line(#[trigger] lines[j]@) ==> condition_ok(
                directive_text(lines[j]@, PRE_PREFIX@),
                ns,
            )
            &&& forall|j: int| 0 <= j < lines.len() && post_line(#[trigger] lines[j]@) ==> condition_ok(
                post_text(lines[j]@),
                ns,
            )
        },
    }
}

/// The text that `strip_directive` finds after a directive's prefix is the
/// directive's text.
proof fn lemma_directive_text(chars: Seq<char>, a: int, b: int, prefix: Seq<char>)
    requires
        0 <= a <= b <= chars.len(),
        chars.subrange(a, b) == trim(chars),
        has_prefix(chars, a, b, prefix),
    ensures
        trim(chars.subrange(a + prefix.len(), b)) == directive_text(chars, prefix),
{
    assert(chars.subrange(a + prefix.len(), b) =~= trim(chars).subrange(prefix.len() as int, trim(chars).len() as int));
}

/// A second `# sig:` line breaks the rule of one signature.
proof fn lemma_not_at_most_one_sig(lines: Seq<String>, i: int)
    requires
        0 <= i < lines.len(),
        sig_line(lines[i]@),
        exists|j: int| 0 <= j < i && sig_line(#[trigger] lines[j]@),
    ensures
        !at_most_one(lines, |l: Seq<char>| sig_line(l)),
{
    let j = choose|j: int| 0 <= j < i && sig_line(#[trigger] lines[j]@);
    assert((|l: Seq<char>| sig_line(l))(lines[j]@) && (|l: Seq<char>| sig_line(l))(lines[i]@));
}

/// A second `# pre:` line breaks the rule of at most one precondition.
proof fn lemma_not_at_most_one_pre(lines: Seq<String>, i: int)
    requires
        0 <= i < lines.len(),
        pre_line(lines[i]@),
        exists|j: int| 0 <= j < i && pre_line(#[trigger] lines[j]@),
    ensures
        !at_most_one(lines, |l: Seq<char>| pre_line(l)),
{
    let j = choose|j: int| 0 <= j < i && pre_line(#[trigger] lines[j]@);
    assert((|l: Seq<char>| pre_line(l))(lines[j]@) && (|l: Seq<char>| pre_line(l))(lines[i]@));
}

/// A second `# post:` line breaks the rule of one postcondition.
proof fn lemma_not_at_most_one_post(lines: Seq<String>, i: int)
    requires
        0 <= i < lines.len(),
        post_line(lines[i]@),
        exists|j: int| 0 <= j < i && post_line(#[trigger] lines[j]@),
    ensures
        !at_most_one(lines, |l: Seq<char>| post_line(l)),
{
    let j = choose|j: int| 0 <= j < i && post_line(#[trigger] lines[j]@);
    assert((|l: Seq<char>| post_line(l))(lines[j]@) && (|l: Seq<char>| post_line(l))(lines[i]@));
}

/// Whether the annotations make a contract depends only on the texts of the
/// body and of the annotations.
pub proof fn lemma_contract_ok_by_text(a: ExtractedFunction, b: ExtractedFunction)
    requires
        a.body@ == b.body@,
        a.annotations@.len() == b.annotations@.len(),
        forall|i: int| 0 <= i < a.annotations@.len() ==> (#[trigger] a.annotations@[i])@ == b.annotations@[i]@,
    ensures
        contract_ok(a) == contract_ok(b),
{
    let la = a.annotations@;
    let lb = b.annotations@;
    assert forall|j: int| 0 <= j < la.len() implies #[trigger] la[j]@ == lb[j]@ by {}
    assert forall|j: int| 0 <= j < lb.len() implies #[trigger] lb[j]@ == la[j]@ by {}
    assert(exactly_one(la, |l: Seq<char>| sig_line(l)) == exactly_one(lb, |l: Seq<char>| sig_line(l)));
    assert(at_most_one(la, |l: Seq<char>| pre_line(l)) == at_most_one(lb, |l: Seq<char>| pre_line(l)));
    assert(exactly_one(la, |l: Seq<char>| post_line(l)) == exactly_one(lb, |l: Seq<char>| post_line(l)));
}

/// The annotations of `function` have the form of a contract (as in
/// `contract_ok`), each condition being an expression, whatever variables it uses.
pub open spec fn contract_parses(function: ExtractedFunction) -> bool {
    let lines = function.annotations@;
    match param_names(function.body@) {
        None => false,
        Some(ns) => {
            &&& forall|j: int|
                0 <= j < lines.len() ==> sig_line(#[trigger] lines[j]@) || pre_line(lines[j]@) || post_line(lines[j]@)
            &&& exactly_one(lines, |l: Seq<char>| sig_line(l))
            &&& at_most_one(lines, |l: Seq<char>| pre_line(l))
            &&& exactly_one(lines, |l: Seq<char>| post_line(l))
            &&& forall|j: int| 0 <= j < lines.len() && sig_line(#[trigger] lines[j]@) ==> (signature_types(
                directive_text(lines[j]@, SIG_PREFIX@),
            ) matches Some((ts, _)) && ts.len() == ns.len())
            &&& forall|j: int| 0 <= j < lines.len() && pre_line(#[trigger] lines[j]@) ==> expr_outcome(
                directive_text(lines[j]@, PRE_PREFIX@),
            ) is Some
            &&& forall|j: int| 0 <= j < lines.len() && post_line(#[trigger] lines[j]@) ==> expr_outcome(
                post_text(lines[j]@),
            ) is Some
        },
    }
}

/// `spec` is the contract that the annotations of `f` state: its signature's
/// types, and the expressions of its `# pre:` and `# post:` lines.
pub open spec fn states_contract(f: ExtractedFunction, spec: FunctionSpec) -> bool {
    let lines = f.annotations@;
    &&& spec.name@ == f.name@
    &&& forall|j: int| 0 <= j < lines.len() && sig_line(#[trigger] lines[j]@) ==> signature_types(
        directive_text(lines[j]@, SIG_PREFIX@),
    ) == Some((spec.arg_types@, spec.ret_type))
    &&& forall|j: int| 0 <= j < lines.len() && pre_line(#[trigger] lines[j]@) ==> parses_to(
        directive_text(lines[j]@, PRE_PREFIX@),
        spec.pre,
    )
    &&& (forall|j: int| 0 <= j < lines.len() ==> !pre_line(#[trigger] lines[j]@)) ==> spec.pre == Expr::Bool(true)
    &&& forall|j: int| 0 <= j < lines.len() && post_line(#[trigger] lines[j]@) ==> parses_to(post_text(lines[j]@), spec.post)
}

/// The contract that the annotations of `function` state.
#[verifier::rlimit(100)]
#[verifier::spinoff_prover]
pub fn parse_function_spec(function: &ExtractedFunction) -> (r: Result<FunctionSpec, AnnotationError>)
    ensures
        r matches Ok(spec) ==> {
            let lines = function.annotations@;
            &&& spec.name@ == function.name@
            &&& spec.wf()
            &&& forall|j: int|
                0 <= j < lines.len() ==> sig_line(#[trigger] lines[j]@) || pre_line(lines[j]@) || post_line(lines[j]@)
            &&& exactly_one(lines, |l: Seq<char>| sig_line(l))
            &&& at_most_one(lines, |l: Seq<char>| pre_line(l))
            &&& exactly_one(lines, |l: Seq<char>| post_line(l))
            &&& (forall|j: int| 0 <= j < lines.len() ==> !pre_line(#[trigger] lines[j]@)) ==> spec.pre == Expr::Bool(true)
            &&& param_names(function.body@) matches Some(ns) && spec.arg_types@.len() == ns.len() && forall|n: Seq<char>|
                (mentions(spec.pre, n) || mentions(spec.post, n)) ==> n == "result"@ || ns.contains(n)
        },
        param_names(function.body@) is None ==> (r matches Err(AnnotationError::InvalidParameterBinding { function: f })
            && f@ == function.name@),
        r is Ok <==> contract_ok(*function),
        contract_parses(*function) && !contract_ok(*function) ==> (r matches Err(
            AnnotationError::MissingVariable { function: f, .. },
        ) && f@ == function.name@),
        r matches Ok(spec) ==> states_contract(*function, spec),
        r matches Ok(spec) ==> forall|j: int|
            0 <= j < function.annotations@.len() && sig_line(#[trigger] function.annotations@[j]@) ==> signature_types(
                directive_text(function.annotations@[j]@, SIG_PREFIX@),
            ) == Some((spec.arg_types@, spec.ret_type)),
        r matches Ok(spec) ==> forall|j: int|
            0 <= j < function.annotations@.len() && pre_line(#[trigger] function.annotations@[j]@) ==> parses_to(
                directive_text(function.annotations@[j]@, PRE_PREFIX@),
                spec.pre,
            ),
        r matches Ok(spec) ==> forall|j: int|
            0 <= j < function.annotations@.len() && post_line(#[trigger] function.annotations@[j]@) ==> parses_to(
                post_text(function.annotations@[j]@),
                spec.post,
            ),
{
    let name = function.name.as_str();
    let params = match infer_param_names(&function.body) {
        Some(p) => p,
        None => {
            return Err(AnnotationError::InvalidParameterBinding { function: copy_string(&function.name) });
        },
    };
    let mut signature: Option<(Vec<Type>, Type)> = None;
    let mut pre: Option<Expr> = None;
    let mut post: Option<Expr> = None;
    let mut i: usize = 0;
    while i < function.annotations.len()
        invariant
            i <= function.annotations@.len(),
            param_names(function.body@) is Some,
            pre matches Some(e) ==> expr_wf(e),
            post matches Some(e) ==> expr_wf(e),
            signature is Some <==> exists|j: int| 0 <= j < i && sig_line(#[trigger] function.annotations@[j]@),
            pre is Some <==> exists|j: int| 0 <= j < i && pre_line(#[trigger] function.annotations@[j]@),
            post is Some <==> exists|j: int| 0 <= j < i && post_line(#[trigger] function.annotations@[j]@),
            forall|j: int|
                0 <= j < i ==> sig_line(#[trigger] function.annotations@[j]@) || pre_line(function.annotations@[j]@)
                    || post_line(function.annotations@[j]@),
            at_most_one(function.annotations@.take(i as int), |l: Seq<char>| sig_line(l)),
            at_most_one(function.annotations@.take(i as int), |l: Seq<char>| pre_line(l)),
            at_most_one(function.annotations@.take(i as int), |l: Seq<char>| post_line(l)),
            signature matches Some((ts, t)) ==> forall|j: int|
                0 <= j < i && sig_line(#[trigger] function.annotations@[j]@) ==> signature_types(
                    directive_text(function.annotations@[j]@, SIG_PREFIX@),
                ) == Some((ts@, t)),
            pre matches Some(e) ==> forall|j: int|
                0 <= j < i && pre_line(#[trigger] function.annotations@[j]@) ==> parses_to(
                    directive_text(function.annotations@[j]@, PRE_PREFIX@),
                    e,
                ),
            post matches Some(e) ==> forall|j: int|
                0 <= j < i && post_line(#[trigger] function.annotations@[j]@) ==> parses_to(post_text(function.annotations@[j]@), e),
        decreases function.annotations.len() - i,
    {
        let annotation = &function.annotations[i];
        let chars = chars_of(annotation.as_str());
        let (a, b) = trim_bounds(&chars, 0, chars.len());
        proof {
            lemma_trim_bounds(chars@, 0, chars@.len() as int, a as int, b as int);
            assert(chars@.subrange(0, chars@.len() as int) =~= chars@);
            lemma_directive(chars@, a as int, b as int, SIG_PREFIX@);
            lemma_directive(chars@, a as int, b as int, PRE_PREFIX@);
            lemma_directive(chars@, a as int, b as int, POST_PREFIX@);
            lemma_directive(chars@, a as int, b as int, POS_PREFIX@);
            let lines = function.annotations@;
            assert(lines.take(i + 1) =~= lines.take(i as int).push(lines[i as int]));
        }
        let ghost line = function.annotations@[i as int]@;
        assert(chars@ == line);
        if let Some(raw) = strip_directive(&chars, a, b, SIG_PREFIX) {
            proof {
                lemma_directive_text(chars@, a as int, b as int, SIG_PREFIX@);
            }
            if signature.is_some() {
                proof {
                    lemma_not_at_most_one_sig(function.annotations@, i as int);
                }
                return Err(AnnotationError::DuplicateDirective { function: copy_string(&function.name), directive: SIG_PREFIX });
            }
            match parse_signature(name, &raw) {
                Ok(sig) => {
                    signature = Some(sig);
                },
                Err(e) => {
                    proof {
                        assert(signature_types(directive_text(line, SIG_PREFIX@)) is None);
                        assert(!contract_ok(*function));
                        assert(!contract_parses(*function));
                    }
                    return Err(e);
                },
            }
        } else if let Some(raw) = strip_directive(&chars, a, b, PRE_PREFIX) {
            proof {
                lemma_directive_text(chars@, a as int, b as int, PRE_PREFIX@);
            }
            if pre.is_some() {
                proof {
                    lemma_not_at_most_one_pre(function.annotations@, i as int);
                }
                return Err(AnnotationError::DuplicateDirective { function: copy_string(&function.name), directive: PRE_PREFIX });
            }
            match parse_expression(name, PRE_PREFIX, &raw) {
                Ok(e) => {
                    pre = Some(e);
                },
                Err(e) => {
                    proof {
                        assert(!condition_ok(directive_text(line, PRE_PREFIX@), param_names(function.body@)->0));
                        assert(!contract_ok(*function));
                        assert(!contract_parses(*function));
                    }
                    return Err(e);
                },
            }
        } else if let Some(raw) = strip_directive(&chars, a, b, POST_PREFIX) {
            proof {
                lemma_directive_text(chars@, a as int, b as int, POST_PREFIX@);
            }
            if post.is_some() {
                proof {
                    lemma_not_at_most_one_post(function.annotations@, i as int);
                }
                return Err(
                    AnnotationError::DuplicateDirective { function: copy_string(&function.name), directive: POST_PREFIX },
                );
            }
            match parse_expression(name, POST_PREFIX, &raw) {
                Ok(e) => {
                    post = Some(e);
                },
                Err(e) => {
                    proof {
                        assert(!condition_ok(post_text(line), param_names(function.body@)->0));
                        assert(!contract_ok(*function));
                        assert(!contract_parses(*function));
                    }
                    return Err(e);
                },
            }
        } else if let Some(raw) = strip_directive(&chars, a, b, POS_PREFIX) {
            proof {
                lemma_directive_text(chars@, a as int, b as int, POS_PREFIX@);
            }
            if post.is_some() {
                proof {
                    lemma_not_at_most_one_post(function.annotations@, i as int);
                }
                return Err(
                    AnnotationError::DuplicateDirective { function: copy_string(&function.name), directive: POST_PREFIX },
                );
            }
            match parse_expression(name, POST_PREFIX, &raw) {
                Ok(e) => {
                    post = Some(e);
                },
                Err(e) => {
                    proof {
                        assert(!condition_ok(post_text(line), param_names(function.body@)->0));
                        assert(!contract_ok(*function));
                        assert(!contract_parses(*function));
                    }
                    return Err(e);
                },
            }
        } else {
            return Err(
                AnnotationError::UnknownAnnotation { function: copy_string(&function.name), annotation: copy_string(annotation) },
            );
        }
        i += 1;
    }
    let ghost lines = function.annotations@;
    let ghost ns = name_values(params@);
    proof {
        assert(lines.take(i as int) =~= lines);
        assert forall|n: Seq<char>| listed(params@, n) <==> ns.contains(n) by {
            if listed(params@, n) {
                let j = choose|j: int| 0 <= j < params@.len() && (#[trigger] params@[j])@ == n;
                assert(ns[j] == n);
            }
            if ns.contains(n) {
                let j = choose|j: int| 0 <= j < ns.len() && ns[j] == n;
                assert(params@[j]@ == n);
            }
        }
    }
    let (arg_types, ret_type) = match signature {
        Some(s) => s,
        None => {
            proof {
                assert(!exactly_one(lines, |l: Seq<char>| sig_line(l)));
            }
            return Err(AnnotationError::MissingSignature { function: copy_string(&function.name) });
        },
    };
    let ghost sig_j = choose|j: int| 0 <= j < lines.len() && sig_line(#[trigger] lines[j]@);
    let post = match post {
        Some(p) => p,
        None => {
            proof {
                assert(!exactly_one(lines, |l: Seq<char>| post_line(l)));
            }
            return Err(AnnotationError::MissingPost { function: copy_string(&function.name) });
        },
    };
    let ghost post_j = choose|j: int| 0 <= j < lines.len() && post_line(#[trigger] lines[j]@);
    let ghost pre_given = pre is Some;
    let pre = match pre {
        Some(p) => p,
        None => Expr::Bool(true),
    };
    if arg_types.len() != params.len() {
        proof {
            assert(signature_types(directive_text(lines[sig_j]@, SIG_PREFIX@)) == Some((arg_types@, ret_type)));
            assert(!contract_ok(*function));
            assert(!contract_parses(*function));
        }
        return Err(
            AnnotationError::ParameterCountMismatch {
                function: copy_string(&function.name),
                type_count: arg_types.len(),
                param_count: params.len(),
            },
        );
    }
    match validate_variables(name, &params, &pre) {
        Ok(()) => {},
        Err(e) => {
            proof {
                let v = e->MissingVariable_variable@;
                crate::facts::lemma_mentions_view(pre, v);
                if pre_given {
                    let pre_j = choose|j: int| 0 <= j < lines.len() && pre_line(#[trigger] lines[j]@);
                    assert(parses_to(directive_text(lines[pre_j]@, PRE_PREFIX@), pre));
                    assert(!condition_ok(directive_text(lines[pre_j]@, PRE_PREFIX@), ns));
                }
                assert(!contract_ok(*function));
            }
            return Err(e);
        },
    }
    match validate_variables(name, &params, &post) {
        Ok(()) => {},
        Err(e) => {
            proof {
                let v = e->MissingVariable_variable@;
                crate::facts::lemma_mentions_view(post, v);
                assert(parses_to(post_text(lines[post_j]@), post));
                assert(!condition_ok(post_text(lines[post_j]@), ns));
                assert(!contract_ok(*function));
            }
            return Err(e);
        },
    }
    proof {
        assert forall|j: int| 0 <= j < lines.len() && pre_line(#[trigger] lines[j]@) implies condition_ok(
            directive_text(lines[j]@, PRE_PREFIX@),
            ns,
        ) by {
            assert(parses_to(directive_text(lines[j]@, PRE_PREFIX@), pre));
            assert forall|n: Seq<char>| crate::facts::mentions_v(crate::ast::expr_view(pre), n) implies n == "result"@ || ns.contains(n) by {
                crate::facts::lemma_mentions_view(pre, n);
            }
        }
        assert forall|j: int| 0 <= j < lines.len() && post_line(#[trigger] lines[j]@) implies condition_ok(
            post_text(lines[j]@),
            ns,
        ) by {
            assert(parses_to(post_text(lines[j]@), post));
            assert forall|n: Seq<char>| crate::facts::mentions_v(crate::ast::expr_view(post), n) implies n == "result"@ || ns.contains(n) by {
                crate::facts::lemma_mentions_view(post, n);
            }
        }
        assert(contract_ok(*function));
    }
    Ok(FunctionSpec { name: copy_string(&function.name), arg_types, ret_type, pre, post })
}

/// The first position from `i` on where `needle` is written within `s[..end]`.
pub open spec fn first_at(s: Seq<char>, i: int, end: int, needle: Seq<char>) -> Option<int>
    decreases end + 1 - i,
{
    if i > end {
        None
    } else if has_prefix(s, i, end, needle) {
        Some(i)
    } else {
        first_at(s, i + 1, end, needle)
    }
}

/// `first_at` is the first occurrence that a search finds.
proof fn lemma_first_at(s: Seq<char>, i: int, end: int, needle: Seq<char>, k: Option<int>)
    requires
        i <= end + 1,
        match k {
            Some(k) => i <= k <= end && has_prefix(s, k, end, needle) && forall|j: int|
                i <= j < k ==> !#[trigger] has_prefix(s, j, end, needle),
            None => forall|j: int| i <= j <= end ==> !#[trigger] has_prefix(s, j, end, needle),
        },
    ensures
        first_at(s, i, end, needle) == k,
    decreases end + 1 - i,
{
    if i <= end && !has_prefix(s, i, end, needle) {
        lemma_first_at(s, i + 1, end, needle, k);
    }
}

/// The text of `s[a..b]` without surrounding spaces starts where `text_start`
/// says and ends where `text_end` says.
proof fn lemma_text_bounds(s: Seq<char>, a: int, b: int)
    requires
        0 <= a <= b <= s.len(),
    ensures
        a <= text_start(s, a, b) <= text_end(s, text_start(s, a, b), b) <= b,
        s.subrange(text_start(s, a, b), text_end(s, text_start(s, a, b), b)) == trim(s.subrange(a, b)),
{
    lemma_text_start(s, a, b);
    let x = text_start(s, a, b);
    lemma_text_end(s, x, b);
    lemma_trim_bounds(s, a, b, x, text_end(s, x, b));
}

proof fn lemma_text_start(s: Seq<char>, a: int, b: int)
    requires
        0 <= a <= b <= s.len(),
    ensures
        a <= text_start(s, a, b) <= b,
        forall|k: int| a <= k < text_start(s, a, b) ==> crate::text::is_space(#[trigger] s[k]),
        text_start(s, a, b) < b ==> !crate::text::is_space(s[text_start(s, a, b)]),
    decreases b - a,
{
    if a < b && crate::text::is_space(s[a]) {
        lemma_text_start(s, a + 1, b);
    }
}

proof fn lemma_text_end(s: Seq<char>, a: int, b: int)
    requires
        0 <= a <= b <= s.len(),
        a < b ==> !crate::text::is_space(s[a]),
    ensures
        a <= text_end(s, a, b) <= b,
        forall|k: int| text_end(s, a, b) <= k < b ==> crate::text::is_space(#[trigger] s[k]),
        a < text_end(s, a, b) ==> !crate::text::is_space(s[text_end(s, a, b) - 1]),
    decreases b - a,
{
    if a < b && crate::text::is_space(s[b - 1]) {
        lemma_text_end(s, a, b - 1);
    }
}

/// The trimmed text of `s[a..b]`, or nothing when it is empty.
pub open spec fn clause_text(s: Seq<char>, a: int, b: int) -> Option<Seq<char>> {
    let x = text_start(s, a, b);
    let y = text_end(s, x, b);
    if x < y {
        Some(s.subrange(x, y))
    } else {
        None
    }
}

/// The parts of a `# extern: NAME (T1, ...) -> T pre: P post: Q` line: the
/// name, the parameter types and return type as written, and the `pre:` and
/// `post:` texts where they are given; `None` when the line is not of that
/// shape.
pub open spec fn extern_shape(s: Seq<char>) -> Option<
    (Seq<char>, Seq<Seq<char>>, Seq<char>, Option<Seq<char>>, Option<Seq<char>>),
> {
    let a0 = text_start(s, 0, s.len() as int);
    let b0 = text_end(s, a0, s.len() as int);
    let a = text_start(s, a0 + EXTERN_PREFIX@.len(), b0);
    let b = text_end(s, a, b0);
    let before_post = match first_at(s, a, b, " post:"@) {
        Some(k) => k,
        None => b,
    };
    let post = match first_at(s, a, b, " post:"@) {
        Some(k) => clause_text(s, k + 6, b),
        None => None,
    };
    let before_pre = match first_at(s, a, before_post, " pre:"@) {
        Some(k) => k,
        None => before_post,
    };
    let pre = match first_at(s, a, before_post, " pre:"@) {
        Some(k) => clause_text(s, k + 5, before_post),
        None => None,
    };
    let sa = text_start(s, a, before_pre);
    let sb = text_end(s, sa, before_pre);
    match first_at(s, sa, sb, "("@) {
        None => None,
        Some(paren) => {
            let na = text_start(s, sa, paren);
            let nb = text_end(s, na, paren);
            if na >= nb {
                None
            } else {
                match signature_shape(s, paren, sb) {
                    None => None,
                    Some((args, ret)) => Some((s.subrange(na, nb), args, ret, pre, post)),
                }
            }
        },
    }
}

/// Every type written in `args` is a type of the language.
pub open spec fn all_named(args: Seq<Seq<char>>) -> bool {
    forall|i: int| 0 <= i < args.len() ==> (#[trigger] type_of_name(args[i])) is Some
}

/// The condition that an optional `pre:`/`post:` text gives: `true` when
/// absent, else an expression that the text parses to.
pub open spec fn condition_from(text: Option<Seq<char>>, e: Expr) -> bool {
    match text {
        None => e == Expr::Bool(true),
        Some(t) => crate::parser::parses_to(t, e),
    }
}

/// An optional `pre:`/`post:` text is absent or makes up one expression.
pub open spec fn clause_parses(text: Option<Seq<char>>) -> bool {
    match text {
        None => true,
        Some(t) => expr_outcome(t) is Some,
    }
}

/// An external function's contract from its `# extern:` line.
#[verifier::loop_isolation(false)]
#[verifier::rlimit(80)]
#[verifier::spinoff_prover]
pub fn parse_extern_line(line: &str) -> (r: Result<ExternSpec, AnnotationError>)
    ensures
        r matches Ok(spec) ==> expr_wf(spec.precondition) && expr_wf(spec.postcondition),
        !directive(line@, EXTERN_PREFIX@) ==> (r matches Err(AnnotationError::InvalidExternDeclaration { declaration: d })
            && d@ == line@),
        directive(line@, EXTERN_PREFIX@) ==> match extern_shape(line@) {
            None => r matches Err(AnnotationError::InvalidExternDeclaration { declaration: d }) && d@ == line@,
            Some((name, args, ret, pre, post)) => {
                &&& r matches Ok(spec) ==> spec.name@ == name && spec.param_types@ == types_named(args) && spec.return_type
                    == type_of_name(ret)->0 && condition_from(pre, spec.precondition) && condition_from(
                    post,
                    spec.postcondition,
                )
                &&& !(all_named(args) && type_of_name(ret) is Some) ==> (r matches Err(
                    AnnotationError::UnsupportedExternType { name: n, .. },
                ) && n@ == name)
                &&& all_named(args) && type_of_name(ret) is Some && clause_parses(pre) && clause_parses(post) ==> r is Ok
                &&& r matches Err(e) ==> (e is UnsupportedExternType && !(all_named(args) && type_of_name(ret) is Some)) || (
                e matches AnnotationError::InvalidExternExpression { name: n, expression: x } && n@ == name && expr_outcome(
                    x@,
                ) is None && (pre == Some(x@) || post == Some(x@)))
            },
        },
{
    let chars = chars_of(line);
    let a0 = crate::extractor::skip_spaces(&chars, 0, chars.len());
    let b0 = crate::extractor::drop_spaces(&chars, a0, chars.len());
    proof {
        lemma_text_bounds(chars@, 0, chars@.len() as int);
        assert(chars@.subrange(0, chars@.len() as int) =~= chars@);
        lemma_directive(chars@, a0 as int, b0 as int, EXTERN_PREFIX@);
    }
    if !starts_with_at(&chars, a0, b0, EXTERN_PREFIX) {
        return Err(AnnotationError::InvalidExternDeclaration { declaration: str_to_string(line) });
    }
    let plen = chars_of(EXTERN_PREFIX).len();
    let a = crate::extractor::skip_spaces(&chars, a0 + plen, b0);
    let b = crate::extractor::drop_spaces(&chars, a, b0);
    proof {
        reveal_strlit(" post:");
        reveal_strlit(" pre:");
        reveal_strlit("(");
    }
    let (before_post, post_text) = match find_from(&chars, a, b, " post:") {
        Some(k) => {
            proof {
                lemma_first_at(chars@, a as int, b as int, " post:"@, Some(k as int));
            }
            let x = crate::extractor::skip_spaces(&chars, k + 6, b);
            let y = crate::extractor::drop_spaces(&chars, x, b);
            (k, if x < y { Some(slice_string(&chars, x, y)) } else { None })
        },
        None => {
            proof {
                lemma_first_at(chars@, a as int, b as int, " post:"@, None);
            }
            (b, None)
        },
    };
    let (before_pre, pre_text) = match find_from(&chars, a, before_post, " pre:") {
        Some(k) => {
            proof {
                lemma_first_at(chars@, a as int, before_post as int, " pre:"@, Some(k as int));
            }
            let x = crate::extractor::skip_spaces(&chars, k + 5, before_post);
            let y = crate::extractor::drop_spaces(&chars, x, before_post);
            (k, if x < y { Some(slice_string(&chars, x, y)) } else { None })
        },
        None => {
            proof {
                lemma_first_at(chars@, a as int, before_post as int, " pre:"@, None);
            }
            (before_post, None)
        },
    };
    let sa = crate::extractor::skip_spaces(&chars, a, before_pre);
    let sb = crate::extractor::drop_spaces(&chars, sa, before_pre);
    let paren = match find_from(&chars, sa, sb, "(") {
        Some(k) => {
            proof {
                lemma_first_at(chars@, sa as int, sb as int, "("@, Some(k as int));
            }
            k
        },
        None => {
            proof {
                lemma_first_at(chars@, sa as int, sb as int, "("@, None);
            }
            return Err(AnnotationError::InvalidExternDeclaration { declaration: str_to_string(line) });
        },
    };
    let na = crate::extractor::skip_spaces(&chars, sa, paren);
    let nb = crate::extractor::drop_spaces(&chars, na, paren);
    if na >= nb {
        return Err(AnnotationError::InvalidExternDeclaration { declaration: str_to_string(line) });
    }
    let name = slice_string(&chars, na, nb);
    let (args, ret) = match parse_signature_parts(&chars, paren, sb) {
        Some(p) => p,
        None => {
            return Err(AnnotationError::InvalidExternDeclaration { declaration: str_to_string(line) });
        },
    };
    let ghost parts = texts(args@);
    let mut param_types: Vec<Type> = Vec::new();
    let mut i: usize = 0;
    while i < args.len()
        invariant
            i <= args@.len(),
            parts == texts(args@),
            forall|j: int| 0 <= j < i ==> (#[trigger] type_of_name(parts[j])) is Some,
            param_types@ == types_named(parts.take(i as int)),
        decreases args.len() - i,
    {
        match parse_type(name.as_str(), &args[i]) {
            Ok(t) => {
                proof {
                    assert(types_named(parts.take(i as int)).push(t) =~= types_named(parts.take(i + 1)));
                }
                param_types.push(t);
            },
            Err(_) => {
                proof {
                    assert(parts[i as int] == args@[i as int]@);
                    assert(type_of_name(parts[i as int]) is None);
                    assert(!all_named(parts));
                }
                return Err(AnnotationError::UnsupportedExternType { name: copy_string(&name), type_label: copy_string(&args[i]) });
            },
        }
        i += 1;
    }
    proof {
        assert(parts.take(args@.len() as int) =~= parts);
    }
    let return_type = match parse_type(name.as_str(), &ret) {
        Ok(t) => t,
        Err(_) => {
            return Err(AnnotationError::UnsupportedExternType { name: copy_string(&name), type_label: ret });
        },
    };
    let precondition = match pre_text {
        None => Expr::Bool(true),
        Some(text) => match parse_expr(text.as_str()) {
            Ok(e) => e,
            Err(_) => {
                return Err(AnnotationError::InvalidExternExpression { name: copy_string(&name), expression: text });
            },
        },
    };
    let postcondition = match post_text {
        None => Expr::Bool(true),
        Some(text) => match parse_expr(text.as_str()) {
            Ok(e) => e,
            Err(_) => {
                return Err(AnnotationError::InvalidExternExpression { name: copy_string(&name), expression: text });
            },
        },
    };
    Ok(ExternSpec { name, param_types, return_type, precondition, postcondition })
}

} // verus!
