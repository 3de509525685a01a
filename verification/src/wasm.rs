//! The wat text form of module imports: numeric types, function
//! declarations, tables, memories, and the imports that carry them.

use vstd::prelude::*;

use crate::textutil::{chars_to_string, dec_digits, push_chars};

verus! {

/// A wasm number type.
#[derive(Debug, Clone, Copy, PartialEq, Eq, Structural)]
pub enum Type {
    I32,
    I64,
    F32,
    F64,
}

/// One parameter or local: an optional name and its type.
#[derive(Debug, Clone)]
pub struct PL {
    pub name: Option<String>,
    pub ty: Type,
}

/// A function declaration: optional name, parameters, optional result.
#[derive(Debug)]
pub struct FuncDecl {
    pub name: Option<String>,
    pub params: Vec<PL>,
    pub result: Option<Type>,
}

/// What a table holds.
#[derive(Debug, Clone, Copy, PartialEq, Eq, Structural)]
pub enum RefType {
    Func,
    Extern,
}

/// Lower and optional upper bound of a table or memory.
#[derive(Debug, Clone, Copy)]
pub struct Limits {
    pub min: u32,
    pub max: Option<u32>,
}

/// A table import.
#[derive(Debug)]
pub struct Table {
    pub ref_type: RefType,
    pub limits: Limits,
}

/// A memory import.
#[derive(Debug)]
pub struct Memory {
    pub limits: Limits,
}

/// What an import brings in.
#[derive(Debug)]
pub enum ImportDesc {
    Func(FuncDecl),
    Table(Table),
    Memory(Memory),
}

/// One import: the module and name it comes from, and its description.
#[derive(Debug)]
pub struct Import {
    pub module: String,
    pub name: String,
    pub desc: ImportDesc,
}

/// One top-level item of a module.
#[derive(Debug)]
pub enum Ast {
    Import(Import),
}

/// The wat text of a number type.
pub open spec fn type_text(t: Type) -> Seq<char> {
    match t {
        Type::I32 => "i32"@,
        Type::I64 => "i64"@,
        Type::F32 => "f32"@,
        Type::F64 => "f64"@,
    }
}

/// The wat text of one parameter.
pub open spec fn pl_text(p: PL) -> Seq<char> {
    match p.name {
        Some(n) => "(param $"@ + n@ + " "@ + type_text(p.ty) + ")"@,
        None => "(param "@ + type_text(p.ty) + ")"@,
    }
}

/// The wat text of a parameter list, one space before each.
pub open spec fn params_text(params: Seq<PL>) -> Seq<char>
    decreases params.len(),
{
    if params.len() == 0 {
        Seq::empty()
    } else {
        params_text(params.drop_last()) + " "@ + pl_text(params.last())
    }
}

/// The wat text of a function declaration.
pub open spec fn func_decl_text(f: &FuncDecl) -> Seq<char> {
    "(func"@ + (match f.name {
        Some(n) => " $"@ + n@,
        None => Seq::<char>::empty(),
    }) + params_text(f.params@) + (match f.result {
        Some(t) => " (result "@ + type_text(t) + ")"@,
        None => Seq::<char>::empty(),
    }) + ")"@
}

/// The wat text of bounds: the minimum, then the maximum if one is set.
pub open spec fn limits_text(l: Limits) -> Seq<char> {
    dec_digits(l.min as int) + (match l.max {
        Some(m) => " "@ + dec_digits(m as int),
        None => Seq::<char>::empty(),
    })
}

/// The wat text of a reference type.
pub open spec fn ref_type_text(r: RefType) -> Seq<char> {
    match r {
        RefType::Func => "funcref"@,
        RefType::Extern => "externref"@,
    }
}

/// The wat text of a table.
pub open spec fn table_text(t: &Table) -> Seq<char> {
    "(table "@ + limits_text(t.limits) + " "@ + ref_type_text(t.ref_type) + ")"@
}

/// The wat text of a memory.
pub open spec fn memory_text(m: &Memory) -> Seq<char> {
    "(memory "@ + limits_text(m.limits) + ")"@
}

/// The wat text of an import description.
pub open spec fn import_desc_text(d: &ImportDesc) -> Seq<char> {
    match d {
        ImportDesc::Func(f) => func_decl_text(f),
        ImportDesc::Table(t) => table_text(t),
        ImportDesc::Memory(m) => memory_text(m),
    }
}

/// The wat text of one import.
pub open spec fn import_text(i: &Import) -> Seq<char> {
    "(import \""@ + i.module@ + "\" \""@ + i.name@ + "\" "@ + import_desc_text(&i.desc) + ")"@
}

/// The wat text of one top-level item.
pub open spec fn ast_text(a: &Ast) -> Seq<char> {
    match a {
        Ast::Import(i) => import_text(i),
    }
}

/// The wat text of a whole module.
pub open spec fn module_text(items: Seq<Ast>) -> Seq<char>
    decreases items.len(),
{
    if items.len() == 0 {
        "(module)"@
    } else {
        module_items_text(items) + ")"@
    }
}

/// The opening and the items of a module.
pub open spec fn module_items_text(items: Seq<Ast>) -> Seq<char>
    decreases items.len(),
{
    if items.len() == 0 {
        "(module"@
    } else {
        module_items_text(items.drop_last()) + " "@ + ast_text(&items.last())
    }
}

/// Writes a number as wat text.
fn push_u32(out: &mut Vec<char>, n: u32)
    ensures
        final(out)@ == old(out)@ + dec_digits(n as int),
{
    let mut rest: u32 = n;
    let mut rev: Vec<char> = Vec::new();
    proof {
        assert(dec_digits(n as int) =~= dec_digits(rest as int) + rev@.reverse());
    }
    loop
        invariant_except_break
            0 <= rest <= n,
            dec_digits(n as int) == dec_digits(rest as int) + rev@.reverse(),
        ensures
            dec_digits(n as int) == rev@.reverse(),
        decreases rest,
    {
        let ghost rest0 = rest as int;
        let d: u8 = (rest % 10) as u8;
        let ghost rev_before = rev@;
        rev.push((48 + d) as char);
        proof {
            assert(rev@ == rev_before.push(crate::textutil::digit_char(rest0 % 10)));
            assert(rev@.reverse() =~= seq![crate::textutil::digit_char(rest0 % 10)]
                + rev_before.reverse());
        }
        if rest < 10 {
            proof {
                assert(dec_digits(rest0) == seq![crate::textutil::digit_char(rest0)]);
                assert(dec_digits(n as int) =~= rev@.reverse());
            }
            break ;
        }
        rest = rest / 10;
        proof {
            assert(dec_digits(rest0) == dec_digits(rest0 / 10).push(
                crate::textutil::digit_char(rest0 % 10),
            ));
            assert(dec_digits(rest0 / 10) + (seq![crate::textutil::digit_char(rest0 % 10)]
                + rev_before.reverse()) =~= dec_digits(rest0) + rev_before.reverse());
        }
    }
    let ghost out0 = out@;
    let mut i: usize = rev.len();
    while i > 0
        invariant
            i <= rev@.len(),
            out@ == out0 + rev@.reverse().take(rev@.len() - i),
        decreases i,
    {
        i = i - 1;
        out.push(rev[i]);
        proof {
            assert(rev@.reverse()[rev@.len() - i - 1] == rev@[i as int]);
            assert(out@ =~= out0 + rev@.reverse().take(rev@.len() - i));
        }
    }
    proof {
        assert(rev@.reverse().take(rev@.len() as int) =~= rev@.reverse());
        assert(out@ =~= out0 + dec_digits(n as int));
    }
}

fn push_type(out: &mut Vec<char>, t: Type)
    ensures
        final(out)@ == old(out)@ + type_text(t),
{
    match t {
        Type::I32 => push_chars(out, "i32"),
        Type::I64 => push_chars(out, "i64"),
        Type::F32 => push_chars(out, "f32"),
        Type::F64 => push_chars(out, "f64"),
    }
}

fn push_limits(out: &mut Vec<char>, l: Limits)
    ensures
        final(out)@ == old(out)@ + limits_text(l),
{
    push_u32(out, l.min);
    match l.max {
        Some(m) => {
            push_chars(out, " ");
            push_u32(out, m);
            proof {
                assert(out@ =~= old(out)@ + limits_text(l));
            }
        },
        None => {
            proof {
                assert(out@ =~= old(out)@ + limits_text(l));
            }
        },
    }
}

#[verifier::rlimit(100)]
fn push_func_decl(out: &mut Vec<char>, f: &FuncDecl)
    ensures
        final(out)@ == old(out)@ + func_decl_text(f),
{
    let ghost out0 = out@;
    push_chars(out, "(func");
    match &f.name {
        Some(n) => {
            push_chars(out, " $");
            push_chars(out, n.as_str());
        },
        None => {},
    }
    let ghost head = out0 + "(func"@ + (match &f.name {
        Some(n) => " $"@ + n@,
        None => Seq::<char>::empty(),
    });
    proof {
        assert(out@ =~= head);
        assert(f.params@.take(0) =~= Seq::<PL>::empty());
    }
    let pn = f.params.len();
    for i in 0..pn
        invariant
            pn == f.params@.len(),
            out@ == head + params_text(f.params@.take(i as int)),
    {
        push_chars(out, " ");
        let p = &f.params[i];
        let ghost mid = out@;
        match &p.name {
            Some(n) => {
                push_chars(out, "(param $");
                push_chars(out, n.as_str());
                push_chars(out, " ");
                push_type(out, p.ty);
                push_chars(out, ")");
            },
            None => {
                push_chars(out, "(param ");
                push_type(out, p.ty);
                push_chars(out, ")");
            },
        }
        proof {
            assert(out@ =~= mid + pl_text(f.params@[i as int]));
            assert(f.params@.take(i + 1).drop_last() =~= f.params@.take(i as int));
            assert(f.params@.take(i + 1).last() == f.params@[i as int]);
            assert(out@ =~= head + params_text(f.params@.take(i + 1)));
        }
    }
    proof {
        assert(f.params@.take(pn as int) =~= f.params@);
    }
    let ghost with_params = head + params_text(f.params@);
    match f.result {
        Some(t) => {
            push_chars(out, " (result ");
            push_type(out, t);
            push_chars(out, ")");
            proof {
                assert(out@ =~= with_params + (" (result "@ + type_text(t) + ")"@));
            }
        },
        None => {},
    }
    push_chars(out, ")");
    proof {
        assert(out@ =~= out0 + func_decl_text(f));
    }
}

fn push_import(out: &mut Vec<char>, i: &Import)
    ensures
        final(out)@ == old(out)@ + import_text(i),
{
    let ghost out0 = out@;
    push_chars(out, "(import \"");
    push_chars(out, i.module.as_str());
    push_chars(out, "\" \"");
    push_chars(out, i.name.as_str());
    push_chars(out, "\" ");
    let ghost head = out0 + "(import \""@ + i.module@ + "\" \""@ + i.name@ + "\" "@;
    proof {
        assert(out@ =~= head);
    }
    match &i.desc {
        ImportDesc::Func(f) => {
            push_func_decl(out, f);
        },
        ImportDesc::Table(t) => {
            push_chars(out, "(table ");
            push_limits(out, t.limits);
            push_chars(out, " ");
            match t.ref_type {
                RefType::Func => push_chars(out, "funcref"),
                RefType::Extern => push_chars(out, "externref"),
            }
            push_chars(out, ")");
            proof {
                assert(out@ =~= head + table_text(t));
            }
        },
        ImportDesc::Memory(m) => {
            push_chars(out, "(memory ");
            push_limits(out, m.limits);
            push_chars(out, ")");
            proof {
                assert(out@ =~= head + memory_text(m));
            }
        },
    }
    push_chars(out, ")");
    proof {
        assert(out@ =~= out0 + import_text(i));
    }
}

/// Writes a whole module as wat text: the items between `(module` and
/// `)`, one space before each.
pub fn encode(items: &Vec<Ast>) -> (r: String)
    ensures
        r@ == module_text(items@),
{
    let mut out: Vec<char> = Vec::new();
    push_chars(&mut out, "(module");
    proof {
        assert(items@.take(0) =~= Seq::<Ast>::empty());
        assert(out@ =~= module_items_text(items@.take(0)));
    }
    let n = items.len();
    for i in 0..n
        invariant
            n == items@.len(),
            out@ == module_items_text(items@.take(i as int)),
    {
        push_chars(&mut out, " ");
        let ghost mid = out@;
        let item = &items[i];
        match item {
            Ast::Import(im) => {
                push_import(&mut out, im);
            },
        }
        proof {
            assert(out@ =~= mid + ast_text(&items@[i as int]));
            assert(items@.take(i + 1).drop_last() =~= items@.take(i as int));
            assert(items@.take(i + 1).last() == items@[i as int]);
            assert(out@ =~= module_items_text(items@.take(i + 1)));
        }
    }
    push_chars(&mut out, ")");
    proof {
        assert(items@.take(n as int) =~= items@);
        if items@.len() == 0 {
            assert("(module"@ + ")"@ =~= "(module)"@) by {
                reveal_strlit("(module");
                reveal_strlit(")");
                reveal_strlit("(module)");
            }
        }
        assert(out@ =~= module_text(items@));
    }
    chars_to_string(&out)
}

/// An import of a function from the `fastn` module, declared under the
/// imported name itself.
pub fn func(name: &str, params: Vec<PL>, result: Option<Type>) -> (r: Ast)
    ensures
        r matches Ast::Import(i) && i.module@ == "fastn"@ && i.name@ == name@ && (i.desc matches ImportDesc::Func(
            f,
        ) && (f.name matches Some(n) && n@ == name@) && f.params == params && f.result == result),
{
    Ast::Import(
        Import {
            module: String::from_str("fastn"),
            name: String::from_str(name),
            desc: ImportDesc::Func(
                FuncDecl { name: Some(String::from_str(name)), params, result },
            ),
        },
    )
}

/// An imported function with no parameters and no result.
pub fn func00(name: &str) -> (r: Ast)
    ensures
        r matches Ast::Import(i) && i.module@ == "fastn"@ && i.name@ == name@ && (i.desc matches ImportDesc::Func(
            f,
        ) && (f.name matches Some(n) && n@ == name@) && f.params@.len() == 0 && f.result is None),
{
    func(name, Vec::new(), None)
}

/// An imported function with no parameters and one result.
pub fn func0(name: &str, result: Type) -> (r: Ast)
    ensures
        r matches Ast::Import(i) && i.module@ == "fastn"@ && i.name@ == name@ && (i.desc matches ImportDesc::Func(
            f,
        ) && (f.name matches Some(n) && n@ == name@) && f.params@.len() == 0 && f.result == Some(
            result,
        )),
{
    func(name, Vec::new(), Some(result))
}

/// An imported function of one parameter.
pub fn func1(name: &str, arg0: PL) -> (r: Ast)
    ensures
        r matches Ast::Import(i) && i.module@ == "fastn"@ && i.name@ == name@ && (i.desc matches ImportDesc::Func(
            f,
        ) && (f.name matches Some(n) && n@ == name@) && f.params@ =~= seq![arg0] && f.result
            is None),
{
    let mut params: Vec<PL> = Vec::new();
    params.push(arg0);
    func(name, params, None)
}

/// An imported function of two parameters.
pub fn func2(name: &str, arg0: PL, arg1: PL) -> (r: Ast)
    ensures
        r matches Ast::Import(i) && i.module@ == "fastn"@ && i.name@ == name@ && (i.desc matches ImportDesc::Func(
            f,
        ) && (f.name matches Some(n) && n@ == name@) && f.params@ =~= seq![arg0, arg1] && f.result
            is None),
{
    let mut params: Vec<PL> = Vec::new();
    params.push(arg0);
    params.push(arg1);
    func(name, params, None)
}

/// An imported function of three parameters.
pub fn func3(name: &str, arg0: PL, arg1: PL, arg2: PL) -> (r: Ast)
    ensures
        r matches Ast::Import(i) && i.module@ == "fastn"@ && i.name@ == name@ && (i.desc matches ImportDesc::Func(
            f,
        ) && (f.name matches Some(n) && n@ == name@) && f.params@ =~= seq![arg0, arg1, arg2]
            && f.result is None),
{
    let mut params: Vec<PL> = Vec::new();
    params.push(arg0);
    params.push(arg1);
    params.push(arg2);
    func(name, params, None)
}

/// An imported function of four parameters.
pub fn func4(name: &str, arg0: PL, arg1: PL, arg2: PL, arg3: PL) -> (r: Ast)
    ensures
        r matches Ast::Import(i) && i.module@ == "fastn"@ && i.name@ == name@ && (i.desc matches ImportDesc::Func(
            f,
        ) && (f.name matches Some(n) && n@ == name@) && f.params@ =~= seq![arg0, arg1, arg2, arg3]
            && f.result is None),
{
    let mut params: Vec<PL> = Vec::new();
    params.push(arg0);
    params.push(arg1);
    params.push(arg2);
    params.push(arg3);
    func(name, params, None)
}

/// An imported function of one parameter and one result.
pub fn func1ret(name: &str, arg0: PL, ret: Type) -> (r: Ast)
    ensures
        r matches Ast::Import(i) && i.module@ == "fastn"@ && i.name@ == name@ && (i.desc matches ImportDesc::Func(
            f,
        ) && (f.name matches Some(n) && n@ == name@) && f.params@ =~= seq![arg0] && f.result
            == Some(ret)),
{
    let mut params: Vec<PL> = Vec::new();
    params.push(arg0);
    func(name, params, Some(ret))
}

/// An imported function of two parameters and one result.
pub fn func2ret(name: &str, arg0: PL, arg1: PL, ret: Type) -> (r: Ast)
    ensures
        r matches Ast::Import(i) && i.module@ == "fastn"@ && i.name@ == name@ && (i.desc matches ImportDesc::Func(
            f,
        ) && (f.name matches Some(n) && n@ == name@) && f.params@ =~= seq![arg0, arg1] && f.result
            == Some(ret)),
{
    let mut params: Vec<PL> = Vec::new();
    params.push(arg0);
    params.push(arg1);
    func(name, params, Some(ret))
}

/// An imported function of three parameters and one result.
pub fn func3ret(name: &str, arg0: PL, arg1: PL, arg2: PL, ret: Type) -> (r: Ast)
    ensures
        r matches Ast::Import(i) && i.module@ == "fastn"@ && i.name@ == name@ && (i.desc matches ImportDesc::Func(
            f,
        ) && (f.name matches Some(n) && n@ == name@) && f.params@ =~= seq![arg0, arg1, arg2]
            && f.result == Some(ret)),
{
    let mut params: Vec<PL> = Vec::new();
    params.push(arg0);
    params.push(arg1);
    params.push(arg2);
    func(name, params, Some(ret))
}

/// An imported function of four parameters and one result.
pub fn func4ret(name: &str, arg0: PL, arg1: PL, arg2: PL, arg3: PL, ret: Type) -> (r: Ast)
    ensures
        r matches Ast::Import(i) && i.module@ == "fastn"@ && i.name@ == name@ && (i.desc matches ImportDesc::Func(
            f,
        ) && (f.name matches Some(n) && n@ == name@) && f.params@ =~= seq![arg0, arg1, arg2, arg3]
            && f.result == Some(ret)),
{
    let mut params: Vec<PL> = Vec::new();
    params.push(arg0);
    params.push(arg1);
    params.push(arg2);
    params.push(arg3);
    func(name, params, Some(ret))
}

impl Import {
    /// The wat text of this import.
    pub fn to_wat(&self) -> (r: String)
        ensures
            r@ == import_text(self),
    {
        let mut out: Vec<char> = Vec::new();
        push_import(&mut out, self);
        chars_to_string(&out)
    }
}

impl ImportDesc {
    /// The wat text of this import description.
    pub fn to_wat(&self) -> (r: String)
        ensures
            r@ == import_desc_text(self),
    {
        let mut out: Vec<char> = Vec::new();
        match self {
            ImportDesc::Func(f) => push_func_decl(&mut out, f),
            ImportDesc::Table(t) => {
                push_chars(&mut out, "(table ");
                push_limits(&mut out, t.limits);
                push_chars(&mut out, " ");
                match t.ref_type {
                    RefType::Func => push_chars(&mut out, "funcref"),
                    RefType::Extern => push_chars(&mut out, "externref"),
                }
                push_chars(&mut out, ")");
                proof {
                    assert(out@ =~= table_text(t));
                }
            },
            ImportDesc::Memory(m) => {
                push_chars(&mut out, "(memory ");
                push_limits(&mut out, m.limits);
                push_chars(&mut out, ")");
                proof {
                    assert(out@ =~= memory_text(m));
                }
            },
        }
        chars_to_string(&out)
    }
}

} // verus!
