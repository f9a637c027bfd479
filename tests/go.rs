use genco::go::{array, imported, local, Any, Config, Go, Item, Tokens, INTERFACE};

#[test]
fn imported_module_is_imported_and_qualified() {
    let mut toks = Tokens::new();
    toks.append(Item::Type(Any::Type(imported("foo", "Debug"))));
    assert_eq!("import \"foo\"\n\nfoo.Debug\n", toks.to_file_string().as_str());
}

#[test]
fn local_type_is_bare() {
    let mut toks = Tokens::new();
    toks.append(Item::Type(Any::Type(local("MyType"))));
    assert_eq!("MyType\n", toks.to_file_string().as_str());
}

#[test]
fn map_of_imported_and_interface() {
    let mut toks = Tokens::new();
    toks.append(Item::Type(Any::MapType(genco::go::map(Any::Type(imported("foo", "Debug")), Any::Interface(INTERFACE)))));
    assert_eq!("import \"foo\"\n\nmap[foo.Debug]interface{}\n", toks.to_file_string().as_str());
}

#[test]
fn array_of_imported() {
    let mut toks = Tokens::new();
    toks.append(Item::Type(Any::Array(array(Any::Type(imported("foo", "Debug"))))));
    assert_eq!("import \"foo\"\n\n[]foo.Debug\n", toks.to_file_string().as_str());
}

#[test]
fn modules_sorted_and_deduplicated_with_last_segment() {
    let mut toks = Tokens::new();
    toks.append(Item::Type(Any::Type(imported("std/io", "Reader"))));
    toks.space();
    toks.append(Item::Type(Any::Type(imported("bytes", "Buffer"))));
    toks.space();
    toks.append(Item::Type(Any::Type(imported("std/io", "Writer"))));
    let config = Config::new().with_package("main");
    assert_eq!(
        "package main\n\nimport \"bytes\"\nimport \"std/io\"\n\nio.Reader bytes.Buffer io.Writer\n",
        Go::format_file(&toks, &config).as_str()
    );
    let mods = Go::imports(&toks);
    assert_eq!(vec!["bytes".to_string(), "std/io".to_string()], mods);
}

#[test]
fn go_quote_string() {
    assert_eq!("\"hello \\n world\"", Go::quote_string("hello \n world").as_str());
    assert_eq!("\"\\t\\r'\\\"\\\\x\"", Go::quote_string("\t\r'\"\\x").as_str());
    assert_eq!(
        "\"\\a\\b\\v\\f\\x00\\x01\\x1f \"",
        Go::quote_string("\u{7}\u{8}\u{b}\u{c}\u{0}\u{1}\u{1f} ").as_str()
    );
}

#[test]
fn go_quoted_item_and_empty() {
    let mut toks = Tokens::new();
    toks.append(Item::Quoted("a\"b".to_string()));
    assert_eq!("\"a\\\"b\"", toks.to_string().as_str());
    assert_eq!("", Tokens::new().to_string().as_str());
}

#[test]
fn cloned_type_renders_the_same() {
    let m = Any::MapType(genco::go::map(Any::Type(imported("std/io", "Reader")), Any::Array(array(Any::Interface(INTERFACE)))));
    let c = m.clone();
    let mut toks = Tokens::new();
    toks.append(Item::Type(m));
    toks.space();
    toks.append(Item::Type(c));
    assert_eq!("import \"std/io\"\n\nmap[io.Reader][]interface{} map[io.Reader][]interface{}\n", toks.clone().to_file_string().as_str());
}
