use genco::java::{imported, local, optional, Config, Item, Java, Tokens, TypeBox, TypeTrait, INTEGER, VOID};

fn ty(t: genco::java::Type) -> Item {
    Item::Type(TypeBox::Type(t))
}

#[test]
fn test_string() {
    let mut toks = Tokens::new();
    toks.append(Item::Quoted("hello \n world".to_string()));
    assert_eq!("\"hello \\n world\"", toks.to_string().as_str());
}

#[test]
fn test_imported() {
    let integer = imported("java.lang", "Integer");
    let a = imported("java.io", "A");
    let b = imported("java.io", "B");
    let ob = imported("java.util", "B");
    let ob_a = ob.clone().with_arguments(vec![TypeBox::Type(a.clone())]);

    let mut toks = Tokens::new();
    toks.append(ty(integer));
    toks.space();
    toks.append(ty(a));
    toks.space();
    toks.append(ty(b));
    toks.space();
    toks.append(ty(ob));
    toks.space();
    toks.append(ty(ob_a));

    assert_eq!(
        "import java.io.A;\nimport java.io.B;\n\nInteger A B java.util.B java.util.B<A>\n",
        toks.to_file_string().as_str()
    );
}

#[test]
fn collision_order_is_by_package_not_by_position() {
    // the later-constructed java.io.B still claims the name B
    let mut toks = Tokens::new();
    toks.append(ty(imported("java.util", "B")));
    toks.space();
    toks.append(ty(imported("java.io", "B")));
    assert_eq!("import java.io.B;\n\njava.util.B B\n", toks.to_file_string().as_str());
}

#[test]
fn primitive_boxed_only_as_argument() {
    let mut toks = Tokens::new();
    toks.append(Item::Type(TypeBox::Primitive(INTEGER)));
    toks.space();
    toks.append(ty(imported("java.util", "List").with_arguments(vec![TypeBox::Primitive(INTEGER)])));
    toks.space();
    toks.append(Item::Type(TypeBox::Void(VOID)));
    assert_eq!("import java.util.List;\n\nint List<Integer> void\n", toks.to_file_string().as_str());
}

#[test]
fn same_package_and_builtin_not_imported() {
    let mut toks = Tokens::new();
    toks.append(ty(imported("com.example", "Foo")));
    toks.space();
    toks.append(ty(imported("java.lang", "String")));
    let mut config = Config::new().with_package("com.example");
    assert_eq!("package com.example;\n\nFoo String\n", Java::write_file(&toks, &mut config).as_str());
}

#[test]
fn rendering_twice_gives_same_text() {
    let mut toks = Tokens::new();
    toks.append(ty(imported("java.util", "Map")));
    toks.space();
    toks.append(ty(imported("a.b", "Map")));
    let mut c1 = Config::new().with_package("x");
    let mut c2 = Config::new().with_package("x");
    let first = Java::write_file(&toks, &mut c1);
    let second = Java::write_file(&toks, &mut c2);
    assert_eq!(first, second);
    assert_eq!("package x;\n\nimport a.b.Map;\n\njava.util.Map Map\n", first.as_str());
}

#[test]
fn nested_path_and_multiple_arguments() {
    let m = imported("java.util", "Map").path("Entry").with_arguments(vec![
        TypeBox::Type(imported("java.lang", "String")),
        TypeBox::Type(imported("java.io", "File")),
    ]);
    let mut toks = Tokens::new();
    toks.append(ty(m));
    assert_eq!(
        "import java.io.File;\nimport java.util.Map;\n\nMap.Entry<String, File>\n",
        toks.to_file_string().as_str()
    );
}

#[test]
fn optional_imports_value_and_renders_field() {
    let o = optional(
        TypeBox::Type(imported("com.a", "Thing")),
        TypeBox::Type(imported("java.util", "Optional").with_arguments(vec![TypeBox::Type(imported("com.a", "Thing"))])),
    );
    let mut toks = Tokens::new();
    toks.append(Item::Type(TypeBox::Optional(o)));
    assert_eq!("import com.a.Thing;\n\njava.util.Optional<Thing>\n", toks.to_file_string().as_str());
}

#[test]
fn local_and_literal() {
    let mut toks = Tokens::new();
    toks.append(Item::Literal("class".to_string()));
    toks.space();
    toks.append(Item::Type(TypeBox::Local(local("Foo"))));
    toks.push();
    assert_eq!("class Foo\n", toks.to_string().as_str());
    assert_eq!("class Foo\n\n", toks.to_file_string().as_str());
}

#[test]
fn empty_stream() {
    let toks = Tokens::new();
    assert_eq!("", toks.to_string().as_str());
    assert_eq!("\n", toks.to_file_string().as_str());
}

#[test]
fn quote_escapes() {
    assert_eq!("\"a\\tb\\\"c\\\\d\\'e\\r\\007f\\024\"", Java::quote_string("a\tb\"c\\d'e\r\u{7}f\u{14}").as_str());
}

#[test]
fn quote_control_characters_read_back() {
    assert_eq!("\"\\b\\f\\001\\000\\037 ~\"", Java::quote_string("\u{8}\u{c}\u{1}\u{0}\u{1f} ~").as_str());
}

#[test]
fn imports_register_names() {
    let mut toks = Tokens::new();
    toks.append(ty(imported("java.io", "A")));
    let mut config = Config::new();
    let lines = Java::imports(&toks, &mut config);
    assert_eq!(vec![("java.io".to_string(), "A".to_string())], lines);
    assert_eq!(vec![("A".to_string(), "java.io".to_string())], config.imported);
    // a second pass finds the name taken and imports nothing
    let again = Java::imports(&toks, &mut config);
    assert!(again.is_empty());
}

#[test]
fn type_helpers() {
    let t = imported("java.util", "List").with_arguments(vec![TypeBox::Primitive(INTEGER)]);
    assert!(t.is_generic());
    let raw = t.as_raw();
    assert!(!raw.is_generic());
    let boxed = INTEGER.into_boxed();
    assert_eq!("java.lang", boxed.package.as_str());
    assert_eq!("Integer", boxed.name.as_str());
}

#[test]
fn optional_takes_identity_of_value() {
    let o = optional(
        TypeBox::Type(imported("com.a", "Thing")),
        TypeBox::Type(imported("java.util", "Optional")),
    );
    assert_eq!("Thing", o.name());
    assert_eq!(Some("com.a"), o.package());
    assert_eq!(Some("java.lang"), INTEGER.package());
    assert_eq!("int", INTEGER.name());
    assert_eq!("void", VOID.name());
    assert_eq!(None, local("X").package());
    let t = TypeBox::Type(imported("java.util", "List").with_arguments(vec![TypeBox::Primitive(INTEGER)]));
    assert_eq!(1, t.arguments().map(|a| a.len()).unwrap_or(0));
    let field = o.as_field();
    assert_eq!("Optional", field.name());
}

#[test]
fn default_config_is_empty() {
    let c = Config::default();
    assert!(c.package.is_none());
    assert!(c.imported.is_empty());
}

#[test]
fn import_count_excludes_builtin_and_own_package() {
    let mut toks = Tokens::new();
    for (p, n) in [("com.x", "A"), ("java.lang", "B"), ("org.y", "C"), ("com.x", "D"), ("net.z", "E")] {
        toks.append(ty(imported(p, n)));
        toks.space();
    }
    let mut config = Config::new().with_package("com.x");
    let lines = Java::imports(&toks, &mut config);
    assert_eq!(
        vec![("net.z".to_string(), "E".to_string()), ("org.y".to_string(), "C".to_string())],
        lines
    );
}

#[test]
fn shuffled_stream_same_imports() {
    let build = |order: &[usize]| {
        let all = [("java.util", "B"), ("java.io", "A"), ("java.io", "B")];
        let mut toks = Tokens::new();
        for &i in order {
            toks.append(ty(imported(all[i].0, all[i].1)));
        }
        let mut config = Config::new();
        let lines = Java::imports(&toks, &mut config);
        (lines, config.imported)
    };
    let first = build(&[0, 1, 2]);
    assert_eq!(first, build(&[2, 1, 0]));
    assert_eq!(first, build(&[1, 0, 2, 0]));
    assert_eq!(
        vec![("java.io".to_string(), "A".to_string()), ("java.io".to_string(), "B".to_string())],
        first.0
    );
}
