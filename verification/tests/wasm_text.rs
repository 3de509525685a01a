use fastn::wasm::{Ast, FuncDecl, Import, ImportDesc, Limits, RefType, Table, Type};

fn e(f: Import, s: &str) {
    let g = fastn::wasm::encode(&vec![Ast::Import(f)]);
    println!("got: {}", g);
    println!("expected: {}", s);
    assert_eq!(g, s);
}

#[test]
fn test() {
    e(
        Import {
            module: "fastn".to_string(),
            name: "create_column".to_string(),
            desc: ImportDesc::Func(FuncDecl {
                name: Some("create_column".to_string()),
                params: vec![],
                result: Some(Type::I32),
            }),
        },
        r#"(module (import "fastn" "create_column" (func $create_column (result i32))))"#,
    );
    e(
        Import {
            module: "js".to_string(),
            name: "table".to_string(),
            desc: ImportDesc::Table(Table {
                ref_type: RefType::Func,
                limits: Limits { min: 1, max: None },
            }),
        },
        r#"(module (import "js" "table" (table 1 funcref)))"#,
    );
}

#[test]
fn import_helpers_build_fastn_imports() {
    let ast = fastn::wasm::func0("create_column", Type::I32);
    let Ast::Import(import) = ast;
    assert_eq!(import.module, "fastn");
    assert_eq!(import.name, "create_column");
    assert_eq!(
        import.to_wat(),
        r#"(import "fastn" "create_column" (func $create_column (result i32)))"#
    );
    let two = fastn::wasm::func2(
        "set_property",
        fastn::wasm::PL { name: None, ty: Type::I32 },
        fastn::wasm::PL { name: Some("value".to_string()), ty: Type::I64 },
    );
    let Ast::Import(import) = two;
    assert_eq!(
        import.to_wat(),
        r#"(import "fastn" "set_property" (func $set_property (param i32) (param $value i64)))"#
    );
}

#[test]
fn memory_import_encodes() {
    let g = fastn::wasm::encode(&vec![Ast::Import(Import {
        module: "js".to_string(),
        name: "mem".to_string(),
        desc: ImportDesc::Memory(fastn::wasm::Memory { limits: Limits { min: 2, max: Some(10) } }),
    })]);
    assert_eq!(g, r#"(module (import "js" "mem" (memory 2 10)))"#);
}
