//! The Java back end: (package, name) imports with collision handling, and
//! use sites qualified only where the name is not imported, built in or in
//! the file's own package.
use vstd::prelude::*;

use crate::order::{
    union_of,    digit, digit_char,    lemma_seq_lt_irreflexive, lemma_seq_lt_total, lemma_seq_lt_transitive, lemma_sorted_of_is,
    push_char, seq_lt, sorted_by, sorted_of, str_lt, is_strict_order,
};

verus! {

/// A primitive type, with its bare and boxed spellings.
#[derive(Debug, Clone, Copy, PartialEq, Eq)]
pub enum Primitive {
    Short,
    Integer,
    Long,
    Float,
    Double,
    Char,
    Boolean,
    Byte,
}

/// Short primitive type.
pub const SHORT: Primitive = Primitive::Short;

/// Integer primitive type.
pub const INTEGER: Primitive = Primitive::Integer;

/// Long primitive type.
pub const LONG: Primitive = Primitive::Long;

/// Float primitive type.
pub const FLOAT: Primitive = Primitive::Float;

/// Double primitive type.
pub const DOUBLE: Primitive = Primitive::Double;

/// Char primitive type.
pub const CHAR: Primitive = Primitive::Char;

/// Boolean primitive type.
pub const BOOLEAN: Primitive = Primitive::Boolean;

/// Byte primitive type.
pub const BYTE: Primitive = Primitive::Byte;

/// The void type.
#[derive(Debug, Clone, Copy, PartialEq, Eq)]
pub struct Void;

/// Void type.
pub const VOID: Void = Void;

/// A class, possibly nested and possibly with generic arguments.
#[derive(Debug)]
pub struct Type {
    /// Package of the class.
    pub package: String,
    /// Name of class.
    pub name: String,
    /// Path of class when nested.
    pub path: Vec<String>,
    /// Arguments of the class.
    pub arguments: Vec<TypeBox>,
}

/// A local name with no specific qualification.
#[derive(Debug, Clone)]
pub struct Local {
    /// Name of class.
    pub name: String,
}

/// An optional type.
#[derive(Debug)]
pub struct Optional {
    /// The type that is optional.
    pub value: Box<TypeBox>,
    /// The complete optional field type, including wrapper.
    pub field: Box<TypeBox>,
}

/// Any Java type that a token stream can refer to.
#[derive(Debug)]
pub enum TypeBox {
    Primitive(Primitive),
    Void(Void),
    Type(Type),
    Optional(Optional),
    Local(Local),
}

/// Configuration for Java formatting.
#[derive(Debug)]
pub struct Config {
    /// Package of the file.
    pub package: Option<String>,
    /// Names imported into the file, each with its package: `(name, package)`.
    pub imported: Vec<(String, String)>,
}

/// Language specialization for Java.
pub struct Java;

/// One element of a Java token stream.
#[derive(Debug, Clone)]
pub enum Item {
    /// Text reproduced verbatim.
    Literal(String),
    /// Text rendered as a quoted Java string literal.
    Quoted(String),
    /// A single space.
    Space,
    /// A line break.
    Push,
    /// A type, rendered as its use site and collected for imports.
    Type(TypeBox),
}

/// A Java token stream.
#[derive(Debug, Clone)]
pub struct Tokens {
    pub items: Vec<Item>,
}

/// An import key: (package, name).
pub type Key = (Seq<char>, Seq<char>);

/// The built-in package, whose names are never imported nor qualified.
pub open spec fn java_lang() -> Seq<char> {
    "java.lang"@
}

/// Keys ordered by package, then by name.
pub open spec fn key_lt(a: Key, b: Key) -> bool {
    seq_lt(a.0, b.0) || (a.0 == b.0 && seq_lt(a.1, b.1))
}

/// The order of `key_lt`, as a value.
pub open spec fn key_order() -> spec_fn(Key, Key) -> bool {
    |a: Key, b: Key| key_lt(a, b)
}

pub proof fn lemma_key_order_strict()
    ensures
        is_strict_order(key_order()),
{
    assert forall|a: Key| !(#[trigger] key_order()(a, a)) by {
        lemma_seq_lt_irreflexive(a.0);
        lemma_seq_lt_irreflexive(a.1);
    }
    assert forall|a: Key, b: Key, c: Key|
        #[trigger] key_order()(a, b) && #[trigger] key_order()(b, c) implies key_order()(a, c) by {
        if seq_lt(a.0, b.0) && seq_lt(b.0, c.0) {
            lemma_seq_lt_transitive(a.0, b.0, c.0);
        }
        if a.0 == b.0 && b.0 == c.0 {
            lemma_seq_lt_irreflexive(a.0);
            lemma_seq_lt_transitive(a.1, b.1, c.1);
        }
    }
    assert forall|a: Key, b: Key| a != b implies #[trigger] key_order()(a, b) || key_order()(b, a) by {
        if a.0 != b.0 {
            lemma_seq_lt_total(a.0, b.0);
        } else {
            lemma_seq_lt_total(a.1, b.1);
        }
    }
}

/// The bare spelling of a primitive.
pub open spec fn bare(p: Primitive) -> Seq<char> {
    match p {
        Primitive::Short => "short"@,
        Primitive::Integer => "int"@,
        Primitive::Long => "long"@,
        Primitive::Float => "float"@,
        Primitive::Double => "double"@,
        Primitive::Char => "char"@,
        Primitive::Boolean => "boolean"@,
        Primitive::Byte => "byte"@,
    }
}

/// The boxed spelling of a primitive.
pub open spec fn boxed(p: Primitive) -> Seq<char> {
    match p {
        Primitive::Short => "Short"@,
        Primitive::Integer => "Integer"@,
        Primitive::Long => "Long"@,
        Primitive::Float => "Float"@,
        Primitive::Double => "Double"@,
        Primitive::Char => "Character"@,
        Primitive::Boolean => "Boolean"@,
        Primitive::Byte => "Byte"@,
    }
}

/// The import keys that a type contributes, its generic arguments and the
/// value of an optional included.
pub open spec fn type_keys(t: TypeBox) -> Set<Key>
    decreases t, 0int,
{
    match t {
        TypeBox::Type(ty) => args_keys(ty.arguments, ty.arguments.len() as int) + set![(ty.package@, ty.name@)],
        TypeBox::Optional(o) => type_keys(*o.value),
        _ => Set::empty(),
    }
}

/// The import keys of the first `n` generic arguments.
pub open spec fn args_keys(args: Vec<TypeBox>, n: int) -> Set<Key>
    decreases args, n,
{
    if n <= 0 || n > args.len() {
        Set::empty()
    } else {
        args_keys(args, n - 1) + type_keys(args[n - 1])
    }
}

/// The package registered for `name`, if any; the latest entry wins.
pub open spec fn lookup(table: Seq<(Seq<char>, Seq<char>)>, name: Seq<char>) -> Option<Seq<char>>
    decreases table.len(),
{
    if table.len() == 0 {
        None
    } else if table.last().0 == name {
        Some(table.last().1)
    } else {
        lookup(table.drop_last(), name)
    }
}

/// A type in `package` named `name` is written with its package.
pub open spec fn qualifies(
    package: Seq<char>,
    name: Seq<char>,
    table: Seq<(Seq<char>, Seq<char>)>,
    file: Option<Seq<char>>,
) -> bool {
    package != java_lang() && lookup(table, name) != Some(package) && file != Some(package)
}

/// The dotted segments of a nested class.
pub open spec fn path_text(path: Seq<String>) -> Seq<char>
    decreases path.len(),
{
    if path.len() == 0 {
        seq![]
    } else {
        path_text(path.drop_last()) + seq!['.'] + path.last()@
    }
}

/// The use-site spelling of a type; `nested` holds inside generic arguments.
pub open spec fn type_text(
    t: TypeBox,
    table: Seq<(Seq<char>, Seq<char>)>,
    file: Option<Seq<char>>,
    nested: bool,
) -> Seq<char>
    decreases t, 0int,
{
    match t {
        TypeBox::Primitive(p) => if nested { boxed(p) } else { bare(p) },
        TypeBox::Void(_) => if nested { "Void"@ } else { "void"@ },
        TypeBox::Local(l) => l.name@,
        TypeBox::Optional(o) => type_text(*o.field, table, file, nested),
        TypeBox::Type(ty) => {
            let head = if qualifies(ty.package@, ty.name@, table, file) {
                ty.package@ + seq!['.']
            } else {
                seq![]
            };
            let args = if ty.arguments.len() == 0 {
                seq![]
            } else {
                seq!['<'] + args_text(ty.arguments, ty.arguments.len() as int, table, file) + seq!['>']
            };
            head + ty.name@ + path_text(ty.path@) + args
        },
    }
}

/// The first `n` generic arguments, separated by `, `.
pub open spec fn args_text(
    args: Vec<TypeBox>,
    n: int,
    table: Seq<(Seq<char>, Seq<char>)>,
    file: Option<Seq<char>>,
) -> Seq<char>
    decreases args, n,
{
    if n <= 0 || n > args.len() {
        seq![]
    } else if n == 1 {
        type_text(args[0], table, file, true)
    } else {
        args_text(args, n - 1, table, file) + ", "@ + type_text(args[n - 1], table, file, true)
    }
}

/// How one character stands inside a quoted Java string: the named escapes,
/// a three-digit octal escape for any other control character, and the
/// character itself otherwise.
pub open spec fn escape_char(c: char) -> Seq<char> {
    if c == '\u{8}' {
        seq!['\\', 'b']
    } else if c == '\t' {
        seq!['\\', 't']
    } else if c == '\n' {
        seq!['\\', 'n']
    } else if c == '\u{c}' {
        seq!['\\', 'f']
    } else if c == '\r' {
        seq!['\\', 'r']
    } else if c == '\'' || c == '"' || c == '\\' {
        seq!['\\', c]
    } else if '\u{1f}' >= c {
        seq!['\\', '0', digit_char(((c as u32) / 8) % 8), digit_char((c as u32) % 8)]
    } else {
        seq![c]
    }
}

/// The characters of `s`, each escaped.
pub open spec fn escaped(s: Seq<char>) -> Seq<char>
    decreases s.len(),
{
    if s.len() == 0 {
        seq![]
    } else {
        escaped(s.drop_last()) + escape_char(s.last())
    }
}

/// `s` as a quoted Java string literal.
pub open spec fn quoted(s: Seq<char>) -> Seq<char> {
    seq!['"'] + escaped(s) + seq!['"']
}

pub open spec fn item_text(
    i: Item,
    table: Seq<(Seq<char>, Seq<char>)>,
    file: Option<Seq<char>>,
) -> Seq<char> {
    match i {
        Item::Literal(s) => s@,
        Item::Quoted(s) => quoted(s@),
        Item::Space => " "@,
        Item::Push => "\n"@,
        Item::Type(t) => type_text(t, table, file, false),
    }
}

/// The body text of a token stream.
pub open spec fn items_text(
    items: Seq<Item>,
    table: Seq<(Seq<char>, Seq<char>)>,
    file: Option<Seq<char>>,
) -> Seq<char>
    decreases items.len(),
{
    if items.len() == 0 {
        seq![]
    } else {
        items_text(items.drop_last(), table, file) + item_text(items.last(), table, file)
    }
}

pub open spec fn item_keys(i: Item) -> Set<Key> {
    match i {
        Item::Type(t) => type_keys(t),
        _ => Set::empty(),
    }
}

/// Every import key that a token stream refers to.
pub open spec fn items_keys(items: Seq<Item>) -> Set<Key> {
    union_of(items, |i: Item| item_keys(i))
}

/// Resolves keys in the order given: a key whose package is built in or is
/// the file's own, or whose name the table already holds, is skipped; any
/// other is imported and its name registered. Gives the imported keys and
/// the table after.
pub open spec fn resolve(
    keys: Seq<Key>,
    table: Seq<(Seq<char>, Seq<char>)>,
    file: Option<Seq<char>>,
) -> (Seq<Key>, Seq<(Seq<char>, Seq<char>)>)
    decreases keys.len(),
{
    if keys.len() == 0 {
        (seq![], table)
    } else {
        let prev = resolve(keys.drop_last(), table, file);
        let k = keys.last();
        if lookup(prev.1, k.1) is Some || k.0 == java_lang() || file == Some(k.0) {
            prev
        } else {
            (prev.0.push(k), prev.1.push((k.1, k.0)))
        }
    }
}

/// The keys of a token stream, in ascending order.
pub open spec fn sorted_keys(items: Seq<Item>) -> Seq<Key> {
    sorted_of(items_keys(items), key_order())
}

/// The imports of a token stream and the table after them.
pub open spec fn imports_of(
    items: Seq<Item>,
    table: Seq<(Seq<char>, Seq<char>)>,
    file: Option<Seq<char>>,
) -> (Seq<Key>, Seq<(Seq<char>, Seq<char>)>) {
    resolve(sorted_keys(items), table, file)
}

/// One import statement.
pub open spec fn import_line(k: Key) -> Seq<char> {
    "import "@ + k.0 + seq!['.'] + k.1 + ";\n"@
}

/// One import statement per key, in the order given.
pub open spec fn import_lines(keys: Seq<Key>) -> Seq<char>
    decreases keys.len(),
{
    if keys.len() == 0 {
        seq![]
    } else {
        import_lines(keys.drop_last()) + import_line(keys.last())
    }
}

/// The import block and the blank line after it, if anything is imported.
pub open spec fn import_block(keys: Seq<Key>) -> Seq<char> {
    if keys.len() == 0 {
        seq![]
    } else {
        import_lines(keys) + "\n"@
    }
}

/// The package line and the blank line after it, if a package is set.
pub open spec fn package_header(file: Option<Seq<char>>) -> Seq<char> {
    match file {
        Some(p) => "package "@ + p + ";\n\n"@,
        None => seq![],
    }
}

/// A whole Java file: header, imports, then the body rendered against the
/// table that the imports left, and a final line break.
pub open spec fn file_text(
    items: Seq<Item>,
    table: Seq<(Seq<char>, Seq<char>)>,
    file: Option<Seq<char>>,
) -> Seq<char> {
    let r = imports_of(items, table, file);
    package_header(file) + import_block(r.0) + items_text(items, r.1, file) + "\n"@
}

/// The character sequences that a vector of string pairs holds.
pub open spec fn pairs_view(v: Seq<(String, String)>) -> Seq<(Seq<char>, Seq<char>)> {
    v.map_values(|e: (String, String)| (e.0@, e.1@))
}

impl Config {
    /// The package of the file, as characters.
    pub open spec fn package_view(&self) -> Option<Seq<char>> {
        match self.package {
            Some(p) => Some(p@),
            None => None,
        }
    }

    /// The import table: `(name, package)` entries.
    pub open spec fn table(&self) -> Seq<(Seq<char>, Seq<char>)> {
        pairs_view(self.imported@)
    }

    /// Each name is registered at most once in the import table.
    pub open spec fn wf(&self) -> bool {
        forall|a: int, b: int|
            0 <= a < b < self.table().len() ==> (#[trigger] self.table()[a]).0 != (
            #[trigger] self.table()[b]).0
    }
}

/// A name that `lookup` does not find is held by no entry of the table.
pub proof fn lemma_lookup_none_absent(table: Seq<(Seq<char>, Seq<char>)>, name: Seq<char>)
    requires
        lookup(table, name) is None,
    ensures
        forall|a: int| 0 <= a < table.len() ==> (#[trigger] table[a]).0 != name,
    decreases table.len(),
{
    if table.len() > 0 {
        lemma_lookup_none_absent(table.drop_last(), name);
        assert forall|a: int| 0 <= a < table.len() implies (#[trigger] table[a]).0 != name by {
            if a < table.len() - 1 {
                assert(table.drop_last()[a] == table[a]);
            }
        }
    }
}

impl Primitive {
    /// The bare spelling.
    pub fn bare_name(&self) -> (r: &'static str)
        ensures
            r@ == bare(*self),
    {
        match self {
            Primitive::Short => "short",
            Primitive::Integer => "int",
            Primitive::Long => "long",
            Primitive::Float => "float",
            Primitive::Double => "double",
            Primitive::Char => "char",
            Primitive::Boolean => "boolean",
            Primitive::Byte => "byte",
        }
    }

    /// The boxed spelling.
    pub fn boxed_name(&self) -> (r: &'static str)
        ensures
            r@ == boxed(*self),
    {
        match self {
            Primitive::Short => "Short",
            Primitive::Integer => "Integer",
            Primitive::Long => "Long",
            Primitive::Float => "Float",
            Primitive::Double => "Double",
            Primitive::Char => "Character",
            Primitive::Boolean => "Boolean",
            Primitive::Byte => "Byte",
        }
    }

    /// Get a boxed version of a primitive type: the class of the built-in
    /// package named by the boxed spelling.
    pub fn into_boxed(self) -> (r: Type)
        ensures
            r.package@ == java_lang(),
            r.name@ == boxed(self),
            r.path@.len() == 0,
            r.arguments@.len() == 0,
    {
        Type {
            package: String::from_str("java.lang"),
            name: String::from_str(self.boxed_name()),
            path: Vec::new(),
            arguments: Vec::new(),
        }
    }
}

/// The index of the latest table entry for `name`, if any.
fn lookup_index(table: &Vec<(String, String)>, name: &String) -> (r: Option<usize>)
    ensures
        match r {
            Some(i) => i < table@.len() && lookup(pairs_view(table@), name@) == Some(table@[i as int].1@),
            None => lookup(pairs_view(table@), name@) is None,
        },
{
    let ghost tv = pairs_view(table@);
    let mut i: usize = table.len();
    assert(tv.take(i as int) =~= tv);
    while i > 0
        invariant
            i <= table@.len(),
            tv == pairs_view(table@),
            lookup(tv, name@) == lookup(tv.take(i as int), name@),
        decreases i,
    {
        i = i - 1;
        assert(tv.take(i + 1 as int).drop_last() =~= tv.take(i as int));
        if table[i].0 == *name {
            return Some(i);
        }
    }
    None
}

/// Whether a class is written with its package under `config`.
fn type_qualifies(ty: &Type, config: &Config) -> (r: bool)
    ensures
        r == qualifies(ty.package@, ty.name@, config.table(), config.package_view()),
{
    let builtin = String::from_str("java.lang");
    let imported = match lookup_index(&config.imported, &ty.name) {
        Some(i) => config.imported[i].1 == ty.package,
        None => false,
    };
    let same = match &config.package {
        Some(p) => *p == ty.package,
        None => false,
    };
    !(ty.package == builtin) && !imported && !same
}

impl TypeBox {
    /// Writes the use-site spelling of the type under `config`; `nested`
    /// holds inside generic arguments.
    pub fn format(&self, config: &Config, nested: bool, out: &mut String)
        ensures
            final(out)@ == old(out)@ + type_text(*self, config.table(), config.package_view(), nested),
        decreases self,
    {
        let ghost start = out@;
        let ghost tbl = config.table();
        let ghost file = config.package_view();
        match self {
            TypeBox::Primitive(p) => {
                if nested {
                    out.append(p.boxed_name());
                } else {
                    out.append(p.bare_name());
                }
            },
            TypeBox::Void(_) => {
                if nested {
                    out.append("Void");
                } else {
                    out.append("void");
                }
            },
            TypeBox::Local(l) => out.append(l.name.as_str()),
            TypeBox::Optional(o) => o.field.format(config, nested, out),
            TypeBox::Type(ty) => format_type(ty, config, out),
        }
        assert(out@ =~= start + type_text(*self, tbl, file, nested));
    }
}

/// Writes the use-site spelling of a class under `config`.
fn format_type(ty: &Type, config: &Config, out: &mut String)
    ensures
        final(out)@ == old(out)@ + type_text(TypeBox::Type(*ty), config.table(), config.package_view(), false),
    decreases ty,
{
    let ghost start = out@;
    let ghost tbl = config.table();
    let ghost file = config.package_view();
    if type_qualifies(ty, config) {
        out.append(ty.package.as_str());
        push_char(out, '.');
    }
    out.append(ty.name.as_str());
    let ghost head = out@;
    let mut i: usize = 0;
    while i < ty.path.len()
        invariant
            i <= ty.path@.len(),
            out@ == head + path_text(ty.path@.take(i as int)),
        decreases ty.path@.len() - i,
    {
        push_char(out, '.');
        out.append(ty.path[i].as_str());
        assert(ty.path@.take(i + 1 as int).drop_last() =~= ty.path@.take(i as int));
        assert(out@ =~= head + path_text(ty.path@.take(i + 1 as int)));
        i = i + 1;
    }
    assert(ty.path@.take(ty.path@.len() as int) =~= ty.path@);
    let ghost named = out@;
    let n = ty.arguments.len();
    if n > 0 {
        push_char(out, '<');
        let ghost open = out@;
        let mut j: usize = 0;
        while j < n
            invariant
                j <= n,
                n == ty.arguments.len(),
                tbl == config.table(),
                file == config.package_view(),
                out@ == open + args_text(ty.arguments, j as int, tbl, file),
            decreases n - j,
        {
            proof {
                assert(decreases_to!(ty.arguments => ty.arguments[j as int])) by {
                    broadcast use vstd::std_specs::vec::axiom_vec_index_decreases;
                }
                assert(decreases_to!(*ty => ty.arguments[j as int]));
            }
            if j > 0 {
                out.append(", ");
            }
            ty.arguments[j].format(config, true, out);
            assert(out@ =~= open + args_text(ty.arguments, j + 1 as int, tbl, file));
            j = j + 1;
        }
        push_char(out, '>');
    }
    assert(out@ =~= named + if n == 0 {
        seq![]
    } else {
        seq!['<'] + args_text(ty.arguments, n as int, tbl, file) + seq!['>']
    });
    assert(out@ =~= start + type_text(TypeBox::Type(*ty), tbl, file, false));
}

/// Compares two keys by `key_lt`.
fn key_less(a: &(String, String), b: &(String, String)) -> (r: bool)
    ensures
        r == key_lt((a.0@, a.1@), (b.0@, b.1@)),
{
    str_lt(a.0.as_str(), b.0.as_str()) || (a.0 == b.0 && str_lt(a.1.as_str(), b.1.as_str()))
}

/// Adds `x` to a strictly ascending vector of keys, keeping it strictly
/// ascending; a key already present is not added twice.
fn insert_key_sorted(v: &mut Vec<(String, String)>, x: (String, String))
    requires
        sorted_by(pairs_view(old(v)@), key_order()),
    ensures
        sorted_by(pairs_view(final(v)@), key_order()),
        pairs_view(final(v)@).to_set() == pairs_view(old(v)@).to_set().insert((x.0@, x.1@)),
{
    proof {
        lemma_key_order_strict();
    }
    let ghost lt = key_order();
    let ghost old_v = pairs_view(v@);
    let ghost xv = (x.0@, x.1@);
    let mut i: usize = 0;
    while i < v.len()
        invariant
            i <= v.len(),
            lt == key_order(),
            xv == (x.0@, x.1@),
            pairs_view(v@) == old_v,
            forall|j: int| 0 <= j < i ==> lt(#[trigger] old_v[j], xv),
        ensures
            i <= v.len(),
            pairs_view(v@) == old_v,
            forall|j: int| 0 <= j < i ==> lt(#[trigger] old_v[j], xv),
            i < v.len() ==> !lt(old_v[i as int], xv),
        decreases v.len() - i,
    {
        assert(old_v[i as int] == (v@[i as int].0@, v@[i as int].1@));
        if !key_less(&v[i], &x) {
            break;
        }
        i = i + 1;
    }
    if i < v.len() && v[i].0 == x.0 && v[i].1 == x.1 {
        assert(old_v[i as int] == xv);
        assert(old_v.to_set().insert(xv) =~= old_v.to_set());
        return;
    }
    if i < v.len() {
        assert(old_v[i as int] != xv);
        assert(lt(xv, old_v[i as int]));
    }
    v.insert(i, x);
    let ghost nv = pairs_view(v@);
    assert(nv =~= old_v.insert(i as int, xv));
    assert forall|a: int, b: int| 0 <= a < b < nv.len() implies #[trigger] lt(nv[a], #[trigger] nv[b]) by {
        if b < i {
        } else if a < i && b == i {
        } else if a < i {
            assert(lt(old_v[a], xv));
            if i < old_v.len() && b - 1 > i {
                assert(lt(old_v[i as int], old_v[b - 1]));
            }
            assert(lt(old_v[a], old_v[b - 1]));
        } else if a == i {
            if b - 1 > i {
                assert(lt(old_v[i as int], old_v[b - 1]));
            }
        } else {
            assert(lt(old_v[a - 1], old_v[b - 1]));
        }
    }
    assert(nv.to_set() =~= old_v.to_set().insert(xv)) by {
        assert forall|y: Key| nv.to_set().contains(y) <==> old_v.to_set().insert(xv).contains(y) by {
            if nv.to_set().contains(y) {
                let k = choose|k: int| 0 <= k < nv.len() && nv[k] == y;
                if k < i {
                    assert(old_v[k] == y);
                } else if k > i {
                    assert(old_v[k - 1] == y);
                }
            }
            if old_v.to_set().contains(y) {
                let k = choose|k: int| 0 <= k < old_v.len() && old_v[k] == y;
                if k < i {
                    assert(nv[k] == y);
                } else {
                    assert(nv[k + 1] == y);
                }
            }
            if y == xv {
                assert(nv[i as int] == y);
            }
        }
    }
}

/// Adds the import keys of a class and of its generic arguments into an
/// ascending vector of keys.
fn collect_type_keys(ty: &Type, keys: &mut Vec<(String, String)>)
    requires
        sorted_by(pairs_view(old(keys)@), key_order()),
    ensures
        sorted_by(pairs_view(final(keys)@), key_order()),
        pairs_view(final(keys)@).to_set() == pairs_view(old(keys)@).to_set() + type_keys(TypeBox::Type(*ty)),
    decreases ty,
{
    let ghost start = pairs_view(keys@).to_set();
    let n = ty.arguments.len();
    let mut i: usize = 0;
    assert(start + args_keys(ty.arguments, 0) =~= start);
    while i < n
        invariant
            i <= n,
            n == ty.arguments.len(),
            sorted_by(pairs_view(keys@), key_order()),
            pairs_view(keys@).to_set() == start + args_keys(ty.arguments, i as int),
        decreases n - i,
    {
        proof {
            assert(decreases_to!(ty.arguments => ty.arguments[i as int])) by {
                broadcast use vstd::std_specs::vec::axiom_vec_index_decreases;
            }
            assert(decreases_to!(*ty => ty.arguments[i as int]));
        }
        collect_keys(&ty.arguments[i], keys);
        assert(pairs_view(keys@).to_set() =~= start + args_keys(ty.arguments, i + 1 as int));
        i = i + 1;
    }
    insert_key_sorted(keys, (ty.package.clone(), ty.name.clone()));
    assert(pairs_view(keys@).to_set() =~= start + type_keys(TypeBox::Type(*ty)));
}

/// Adds the import keys of `t` into an ascending vector of keys.
fn collect_keys(t: &TypeBox, keys: &mut Vec<(String, String)>)
    requires
        sorted_by(pairs_view(old(keys)@), key_order()),
    ensures
        sorted_by(pairs_view(final(keys)@), key_order()),
        pairs_view(final(keys)@).to_set() == pairs_view(old(keys)@).to_set() + type_keys(*t),
    decreases t,
{
    let ghost start = pairs_view(keys@).to_set();
    match t {
        TypeBox::Type(ty) => collect_type_keys(ty, keys),
        TypeBox::Optional(o) => {
            collect_keys(&o.value, keys);
        },
        _ => {
            assert(start + Set::empty() =~= start);
        },
    }
}

/// Writes one token as text under `config`.
fn write_item(item: &Item, config: &Config, out: &mut String)
    ensures
        final(out)@ == old(out)@ + item_text(*item, config.table(), config.package_view()),
{
    match item {
        Item::Literal(s) => out.append(s.as_str()),
        Item::Quoted(s) => {
            let q = Java::quote_string(s.as_str());
            out.append(q.as_str());
        },
        Item::Space => out.append(" "),
        Item::Push => out.append("\n"),
        Item::Type(t) => t.format(config, false, out),
    }
}

/// Writes the tokens of a stream as text under `config`.
fn write_items(tokens: &Tokens, config: &Config, out: &mut String)
    ensures
        final(out)@ == old(out)@ + items_text(tokens.items@, config.table(), config.package_view()),
{
    let ghost start = out@;
    let ghost tbl = config.table();
    let ghost file = config.package_view();
    let n = tokens.items.len();
    let mut i: usize = 0;
    while i < n
        invariant
            i <= n,
            n == tokens.items@.len(),
            tbl == config.table(),
            file == config.package_view(),
            out@ == start + items_text(tokens.items@.take(i as int), tbl, file),
        decreases n - i,
    {
        write_item(&tokens.items[i], config, out);
        assert(tokens.items@.take(i + 1 as int).drop_last() =~= tokens.items@.take(i as int));
        assert(out@ =~= start + items_text(tokens.items@.take(i + 1 as int), tbl, file));
        i = i + 1;
    }
    assert(tokens.items@.take(n as int) =~= tokens.items@);
}

/// The keys of a token stream, each once, in ascending order.
fn collect_all_keys(tokens: &Tokens) -> (r: Vec<(String, String)>)
    ensures
        pairs_view(r@) == sorted_keys(tokens.items@),
        sorted_by(pairs_view(r@), key_order()),
{
    proof {
        lemma_key_order_strict();
    }
    let ghost items = tokens.items@;
    let mut keys: Vec<(String, String)> = Vec::new();
    assert(pairs_view(keys@).to_set() =~= Set::empty());
    let n = tokens.items.len();
    let mut i: usize = 0;
    while i < n
        invariant
            i <= n,
            n == items.len(),
            items == tokens.items@,
            sorted_by(pairs_view(keys@), key_order()),
            pairs_view(keys@).to_set() == items_keys(items.take(i as int)),
        decreases n - i,
    {
        match &tokens.items[i] {
            Item::Type(t) => collect_keys(t, &mut keys),
            _ => {
                assert(pairs_view(keys@).to_set() + Set::empty() =~= pairs_view(keys@).to_set());
            },
        }
        assert(items.take(i + 1 as int).drop_last() =~= items.take(i as int));
        i = i + 1;
    }
    assert(items.take(n as int) =~= items);
    proof {
        lemma_sorted_of_is(pairs_view(keys@), key_order());
    }
    keys
}

/// Writes one character as it stands inside a quoted Java string.
fn push_escaped(out: &mut String, c: char)
    ensures
        final(out)@ == old(out)@ + escape_char(c),
{
    let ghost start = out@;
    if c == '\u{8}' {
        push_char(out, '\\');
        push_char(out, 'b');
    } else if c == '\t' {
        push_char(out, '\\');
        push_char(out, 't');
    } else if c == '\n' {
        push_char(out, '\\');
        push_char(out, 'n');
    } else if c == '\u{c}' {
        push_char(out, '\\');
        push_char(out, 'f');
    } else if c == '\r' {
        push_char(out, '\\');
        push_char(out, 'r');
    } else if c == '\'' || c == '"' || c == '\\' {
        push_char(out, '\\');
        push_char(out, c);
    } else if '\u{1f}' >= c {
        let v = c as u32;
        push_char(out, '\\');
        push_char(out, '0');
        push_char(out, digit((v / 8) % 8));
        push_char(out, digit(v % 8));
    } else {
        push_char(out, c);
    }
    assert(out@ =~= start + escape_char(c));
}

impl Java {
    /// Quotes a string as a Java string literal, escaping quotes,
    /// backslashes and every control character.
    pub fn quote_string(input: &str) -> (r: String)
        ensures
            r@ == quoted(input@),
    {
        let n = input.unicode_len();
        let mut out = String::new();
        push_char(&mut out, '"');
        let mut i: usize = 0;
        while i < n
            invariant
                i <= n,
                n == input@.len(),
                out@ == seq!['"'] + escaped(input@.take(i as int)),
            decreases n - i,
        {
            let c = input.get_char(i);
            push_escaped(&mut out, c);
            assert(input@.take(i + 1 as int).drop_last() =~= input@.take(i as int));
            assert(out@ =~= seq!['"'] + escaped(input@.take(i + 1 as int)));
            i = i + 1;
        }
        assert(input@.take(n as int) =~= input@);
        push_char(&mut out, '"');
        out
    }

    /// Resolves the imports of a token stream against `config`: gives the
    /// keys to import, in ascending order, and registers each imported name
    /// in the configuration's table.
    pub fn imports(tokens: &Tokens, config: &mut Config) -> (r: Vec<(String, String)>)
        ensures
            (pairs_view(r@), final(config).table()) == imports_of(
                tokens.items@,
                old(config).table(),
                old(config).package_view(),
            ),
            final(config).package_view() == old(config).package_view(),
            sorted_by(pairs_view(r@), key_order()),
            old(config).wf() ==> final(config).wf(),
    {
        let ghost w0 = config.wf();
        let keys = collect_all_keys(tokens);
        let ghost kv = pairs_view(keys@);
        let ghost t0 = config.table();
        let ghost file = config.package_view();
        let builtin = String::from_str("java.lang");
        let mut lines: Vec<(String, String)> = Vec::new();
        assert(pairs_view(lines@) =~= seq![]);
        assert(kv.take(0) =~= seq![]);
        let mut j: usize = 0;
        while j < keys.len()
            invariant
                j <= keys@.len(),
                kv == pairs_view(keys@),
                builtin@ == java_lang(),
                file == config.package_view(),
                (pairs_view(lines@), config.table()) == resolve(kv.take(j as int), t0, file),
                sorted_by(kv, key_order()),
                sorted_by(pairs_view(lines@), key_order()),
                forall|a: int, m: int|
                    0 <= a < lines@.len() && j <= m < kv.len() ==> key_order()(
                        #[trigger] pairs_view(lines@)[a],
                        #[trigger] kv[m],
                    ),
                w0 ==> config.wf(),
            decreases keys@.len() - j,
        {
            let k = &keys[j];
            assert(kv[j as int] == (k.0@, k.1@));
            assert(kv.take(j + 1 as int).drop_last() =~= kv.take(j as int));
            assert(kv.take(j + 1 as int).last() == kv[j as int]);
            let taken = lookup_index(&config.imported, &k.1).is_some();
            proof {
                lemma_key_order_strict();
                if !taken {
                    lemma_lookup_none_absent(config.table(), k.1@);
                }
            }
            let same = match &config.package {
                Some(p) => *p == k.0,
                None => false,
            };
            if !taken && !(k.0 == builtin) && !same {
                let ghost lv = pairs_view(lines@);
                let ghost tv = config.table();
                lines.push((k.0.clone(), k.1.clone()));
                config.imported.push((k.1.clone(), k.0.clone()));
                assert(pairs_view(lines@) =~= lv.push((k.0@, k.1@)));
                assert(config.table() =~= tv.push((k.1@, k.0@)));
                let ghost nl = pairs_view(lines@);
                assert forall|a: int, b: int| 0 <= a < b < nl.len() implies #[trigger] key_order()(
                    nl[a],
                    #[trigger] nl[b],
                ) by {
                    if b == nl.len() - 1 {
                        assert(key_order()(lv[a], kv[j as int]));
                    } else {
                        assert(key_order()(lv[a], lv[b]));
                    }
                }
                assert forall|a: int, m: int|
                    0 <= a < nl.len() && j + 1 <= m < kv.len() implies key_order()(
                    #[trigger] nl[a],
                    #[trigger] kv[m],
                ) by {
                    if a == nl.len() - 1 {
                        assert(key_order()(kv[j as int], kv[m]));
                    } else {
                        assert(key_order()(lv[a], kv[m]));
                    }
                }
                proof {
                    if w0 {
                        let nt = config.table();
                        assert forall|a: int, b: int| 0 <= a < b < nt.len() implies (#[trigger] nt[a]).0
                            != (#[trigger] nt[b]).0 by {
                            if b == nt.len() - 1 {
                                assert(tv[a].0 != k.1@);
                            } else {
                                assert(tv[a].0 != tv[b].0);
                            }
                        }
                    }
                }
            }
            j = j + 1;
        }
        assert(kv.take(keys@.len() as int) =~= kv);
        lines
    }

    /// Renders a whole file: the package line, the import block, and the
    /// stream rendered against the table that the imports leave behind,
    /// which `config` holds afterwards.
    pub fn write_file(tokens: &Tokens, config: &mut Config) -> (r: String)
        ensures
            r@ == file_text(tokens.items@, old(config).table(), old(config).package_view()),
            final(config).table() == imports_of(
                tokens.items@,
                old(config).table(),
                old(config).package_view(),
            ).1,
            final(config).package_view() == old(config).package_view(),
            old(config).wf() ==> final(config).wf(),
    {
        let mut out = String::new();
        match &config.package {
            Some(p) => {
                out.append("package ");
                out.append(p.as_str());
                out.append(";\n\n");
            },
            None => {},
        }
        let ghost header = out@;
        assert(header =~= package_header(config.package_view()));
        let lines = Java::imports(tokens, config);
        let ghost lv = pairs_view(lines@);
        if lines.len() > 0 {
            let mut j: usize = 0;
            while j < lines.len()
                invariant
                    j <= lines@.len(),
                    lv == pairs_view(lines@),
                    out@ == header + import_lines(lv.take(j as int)),
                decreases lines@.len() - j,
            {
                out.append("import ");
                out.append(lines[j].0.as_str());
                push_char(&mut out, '.');
                out.append(lines[j].1.as_str());
                out.append(";\n");
                assert(lv.take(j + 1 as int).drop_last() =~= lv.take(j as int));
                assert(out@ =~= header + import_lines(lv.take(j + 1 as int)));
                j = j + 1;
            }
            assert(lv.take(lines@.len() as int) =~= lv);
            out.append("\n");
        }
        assert(out@ =~= header + import_block(lv));
        write_items(tokens, config, &mut out);
        out.append("\n");
        out
    }
}

impl Config {
    /// A configuration with no package and nothing imported.
    pub fn new() -> (r: Config)
        ensures
            r.package_view() == None::<Seq<char>>,
            r.table() == Seq::<(Seq<char>, Seq<char>)>::empty(),
            r.wf(),
    {
        let r = Config { package: None, imported: Vec::new() };
        assert(r.table() =~= Seq::<(Seq<char>, Seq<char>)>::empty());
        r
    }

    /// Configure package to use.
    pub fn with_package(self, package: &str) -> (r: Config)
        ensures
            r.package_view() == Some(package@),
            r.table() == self.table(),
            self.wf() ==> r.wf(),
    {
        Config { package: Some(String::from_str(package)), imported: self.imported }
    }
}

impl Type {
    /// Extend the type with a nested path.
    ///
    /// This discards any arguments associated with it.
    pub fn path(self, part: &str) -> (r: Type)
        ensures
            r.package == self.package,
            r.name == self.name,
            r.path@.len() == self.path@.len() + 1,
            r.path@.drop_last() == self.path@,
            r.path@.last()@ == part@,
            r.arguments@.len() == 0,
    {
        let mut path = self.path;
        path.push(String::from_str(part));
        Type { package: self.package, name: self.name, path, arguments: Vec::new() }
    }

    /// Add arguments to the given type, in place of any it had.
    pub fn with_arguments(self, args: Vec<TypeBox>) -> (r: Type)
        ensures
            r.package == self.package,
            r.name == self.name,
            r.path == self.path,
            r.arguments == args,
    {
        Type { package: self.package, name: self.name, path: self.path, arguments: args }
    }

    /// Get the raw type.
    ///
    /// A raw type is one without generic arguments.
    pub fn as_raw(self) -> (r: Type)
        ensures
            r.package == self.package,
            r.name == self.name,
            r.path == self.path,
            r.arguments@.len() == 0,
    {
        Type { package: self.package, name: self.name, path: self.path, arguments: Vec::new() }
    }

    /// Check if type is generic.
    pub fn is_generic(&self) -> (r: bool)
        ensures
            r == (self.arguments@.len() > 0),
    {
        self.arguments.len() > 0
    }
}

impl Optional {
    /// Get the field type (includes optionality).
    pub fn as_field(self) -> (r: TypeBox)
        ensures
            r == *self.field,
    {
        *self.field
    }

    /// Get the value type (strips optionality).
    pub fn as_value(self) -> (r: TypeBox)
        ensures
            r == *self.value,
    {
        *self.value
    }
}

impl Tokens {
    /// An empty token stream.
    pub fn new() -> (r: Tokens)
        ensures
            r.items@ == Seq::<Item>::empty(),
    {
        Tokens { items: Vec::new() }
    }

    /// Adds one token at the end.
    pub fn append(&mut self, item: Item)
        ensures
            final(self).items@ == old(self).items@.push(item),
    {
        self.items.push(item);
    }

    /// Adds a space at the end.
    pub fn space(&mut self)
        ensures
            final(self).items@ == old(self).items@.push(Item::Space),
    {
        self.items.push(Item::Space);
    }

    /// Adds a line break at the end.
    pub fn push(&mut self)
        ensures
            final(self).items@ == old(self).items@.push(Item::Push),
    {
        self.items.push(Item::Push);
    }

    /// The stream as text, without a file header, under a fresh configuration.
    pub fn to_string(&self) -> (r: String)
        ensures
            r@ == items_text(self.items@, Seq::empty(), None),
    {
        let config = Config::new();
        let mut out = String::new();
        write_items(self, &config, &mut out);
        out
    }

    /// The stream as a whole file under a fresh configuration.
    pub fn to_file_string(&self) -> (r: String)
        ensures
            r@ == file_text(self.items@, Seq::empty(), None),
    {
        let mut config = Config::new();
        Java::write_file(self, &mut config)
    }
}

/// Setup an imported element.
pub fn imported(package: &str, name: &str) -> (r: Type)
    ensures
        r.package@ == package@,
        r.name@ == name@,
        r.path@.len() == 0,
        r.arguments@.len() == 0,
{
    Type {
        package: String::from_str(package),
        name: String::from_str(name),
        path: Vec::new(),
        arguments: Vec::new(),
    }
}

/// Setup a local element.
pub fn local(name: &str) -> (r: Local)
    ensures
        r.name@ == name@,
{
    Local { name: String::from_str(name) }
}

/// Setup an optional type: `value` gives its imports and identity, `field`
/// its spelling.
pub fn optional(value: TypeBox, field: TypeBox) -> (r: Optional)
    ensures
        *r.value == value,
        *r.field == field,
{
    Optional { value: Box::new(value), field: Box::new(field) }
}

/// The simple name of a type; an optional takes its value's.
pub open spec fn simple_name(t: TypeBox) -> Seq<char>
    decreases t,
{
    match t {
        TypeBox::Primitive(p) => bare(p),
        TypeBox::Void(_) => "void"@,
        TypeBox::Type(ty) => ty.name@,
        TypeBox::Local(l) => l.name@,
        TypeBox::Optional(o) => simple_name(*o.value),
    }
}

/// The package of a type, if it has one; an optional takes its value's.
pub open spec fn type_package(t: TypeBox) -> Option<Seq<char>>
    decreases t,
{
    match t {
        TypeBox::Primitive(_) => Some(java_lang()),
        TypeBox::Type(ty) => Some(ty.package@),
        TypeBox::Optional(o) => type_package(*o.value),
        _ => None,
    }
}

/// The generic arguments of a type, if it is a class; an optional takes its
/// value's.
pub open spec fn type_arguments(t: TypeBox) -> Option<Seq<TypeBox>>
    decreases t,
{
    match t {
        TypeBox::Type(ty) => Some(ty.arguments@),
        TypeBox::Optional(o) => type_arguments(*o.value),
        _ => None,
    }
}

/// What every Java type reports of itself.
pub trait TypeTrait {
    /// This type as one of the closed set of Java types.
    spec fn as_type_box(&self) -> TypeBox;

    /// The simple name.
    fn name(&self) -> (r: &str)
        ensures
            r@ == simple_name(self.as_type_box()),
    ;

    /// The package, if any.
    fn package(&self) -> (r: Option<&str>)
        ensures
            match r {
                Some(p) => type_package(self.as_type_box()) == Some(p@),
                None => type_package(self.as_type_box()) is None,
            },
    ;

    /// The generic arguments, if the type can carry any.
    fn arguments(&self) -> (r: Option<&[TypeBox]>)
        ensures
            match r {
                Some(a) => type_arguments(self.as_type_box()) == Some(a@),
                None => type_arguments(self.as_type_box()) is None,
            },
    ;
}

impl TypeTrait for TypeBox {
    open spec fn as_type_box(&self) -> TypeBox {
        *self
    }

    fn name(&self) -> (r: &str)
        decreases self,
    {
        match self {
            TypeBox::Primitive(p) => p.bare_name(),
            TypeBox::Void(_) => "void",
            TypeBox::Type(ty) => ty.name.as_str(),
            TypeBox::Local(l) => l.name.as_str(),
            TypeBox::Optional(o) => o.value.name(),
        }
    }

    fn package(&self) -> (r: Option<&str>)
        decreases self,
    {
        match self {
            TypeBox::Primitive(_) => Some("java.lang"),
            TypeBox::Type(ty) => Some(ty.package.as_str()),
            TypeBox::Optional(o) => o.value.package(),
            _ => None,
        }
    }

    fn arguments(&self) -> (r: Option<&[TypeBox]>)
        decreases self,
    {
        match self {
            TypeBox::Type(ty) => Some(ty.arguments.as_slice()),
            TypeBox::Optional(o) => o.value.arguments(),
            _ => None,
        }
    }
}

impl TypeTrait for Type {
    open spec fn as_type_box(&self) -> TypeBox {
        TypeBox::Type(*self)
    }

    fn name(&self) -> (r: &str) {
        self.name.as_str()
    }

    fn package(&self) -> (r: Option<&str>) {
        Some(self.package.as_str())
    }

    fn arguments(&self) -> (r: Option<&[TypeBox]>) {
        Some(self.arguments.as_slice())
    }
}

impl TypeTrait for Primitive {
    open spec fn as_type_box(&self) -> TypeBox {
        TypeBox::Primitive(*self)
    }

    fn name(&self) -> (r: &str) {
        self.bare_name()
    }

    fn package(&self) -> (r: Option<&str>) {
        Some("java.lang")
    }

    fn arguments(&self) -> (r: Option<&[TypeBox]>) {
        None
    }
}

impl TypeTrait for Void {
    open spec fn as_type_box(&self) -> TypeBox {
        TypeBox::Void(*self)
    }

    fn name(&self) -> (r: &str) {
        "void"
    }

    fn package(&self) -> (r: Option<&str>) {
        None
    }

    fn arguments(&self) -> (r: Option<&[TypeBox]>) {
        None
    }
}

impl TypeTrait for Local {
    open spec fn as_type_box(&self) -> TypeBox {
        TypeBox::Local(*self)
    }

    fn name(&self) -> (r: &str) {
        self.name.as_str()
    }

    fn package(&self) -> (r: Option<&str>) {
        None
    }

    fn arguments(&self) -> (r: Option<&[TypeBox]>) {
        None
    }
}

impl TypeTrait for Optional {
    open spec fn as_type_box(&self) -> TypeBox {
        TypeBox::Optional(*self)
    }

    fn name(&self) -> (r: &str) {
        self.value.name()
    }

    fn package(&self) -> (r: Option<&str>) {
        self.value.package()
    }

    fn arguments(&self) -> (r: Option<&[TypeBox]>) {
        self.value.arguments()
    }
}

impl Clone for TypeBox {
    fn clone(&self) -> (r: TypeBox)
        decreases self,
    {
        match self {
            TypeBox::Primitive(p) => TypeBox::Primitive(*p),
            TypeBox::Void(v) => TypeBox::Void(*v),
            TypeBox::Type(t) => TypeBox::Type(t.clone()),
            TypeBox::Optional(o) => TypeBox::Optional(o.clone()),
            TypeBox::Local(l) => TypeBox::Local(l.clone()),
        }
    }
}

impl Clone for Type {
    fn clone(&self) -> (r: Type)
        ensures
            r.package == self.package,
            r.name == self.name,
            r.path@ == self.path@,
            r.arguments@.len() == self.arguments@.len(),
        decreases self,
    {
        let mut path: Vec<String> = Vec::new();
        let mut i: usize = 0;
        while i < self.path.len()
            invariant
                i <= self.path@.len(),
                path@ == self.path@.take(i as int),
            decreases self.path@.len() - i,
        {
            path.push(self.path[i].clone());
            assert(path@ =~= self.path@.take(i + 1 as int));
            i = i + 1;
        }
        assert(self.path@.take(self.path@.len() as int) =~= self.path@);
        let mut arguments: Vec<TypeBox> = Vec::new();
        let mut j: usize = 0;
        while j < self.arguments.len()
            invariant
                j <= self.arguments@.len(),
                arguments@.len() == j,
            decreases self.arguments@.len() - j,
        {
            proof {
                assert(decreases_to!(self.arguments => self.arguments[j as int])) by {
                    broadcast use vstd::std_specs::vec::axiom_vec_index_decreases;
                }
                assert(decreases_to!(*self => self.arguments[j as int]));
            }
            arguments.push(self.arguments[j].clone());
            j = j + 1;
        }
        Type { package: self.package.clone(), name: self.name.clone(), path, arguments }
    }
}

impl Clone for Optional {
    fn clone(&self) -> (r: Optional)
        decreases self,
    {
        Optional { value: Box::new((*self.value).clone()), field: Box::new((*self.field).clone()) }
    }
}

impl Default for Config {
    fn default() -> (r: Config)
        ensures
            r.package_view() == None::<Seq<char>>,
            r.table() == Seq::<(Seq<char>, Seq<char>)>::empty(),
            r.wf(),
    {
        Config::new()
    }
}

} // verus!
