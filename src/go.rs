//! The Go back end: module-path imports, one import per distinct module,
//! and use sites qualified by the last segment of the module path.
use vstd::prelude::*;

use crate::order::{
    union_of,    digit, digit_char,    insert_text_sorted, lemma_sorted_of_is, lemma_text_order_strict, push_char, sorted_by,
    sorted_of, text_order, views,
};

verus! {

/// A Go type: a name, possibly imported from a module.
#[derive(Debug)]
pub struct Type {
    /// Module of the imported name.
    pub module: Option<String>,
    /// Name imported.
    pub name: String,
}

/// A map `map[<key>]<value>`.
#[derive(Debug)]
pub struct MapType {
    /// Key of the map.
    pub key: Box<Any>,
    /// Value of the map.
    pub value: Box<Any>,
}

/// An array `[]<inner>`.
#[derive(Debug)]
pub struct Array {
    /// Inner value of the array.
    pub inner: Box<Any>,
}

/// The interface type `interface{}`.
#[derive(Debug, Clone, Copy)]
pub struct Interface;

/// The interface type `interface{}`.
pub const INTERFACE: Interface = Interface;

/// Any Go type that a token stream can refer to.
#[derive(Debug)]
pub enum Any {
    Type(Type),
    MapType(MapType),
    Array(Array),
    Interface(Interface),
}

/// Format state for Go.
#[derive(Debug)]
pub struct Format {}

/// Config data for Go.
#[derive(Debug)]
pub struct Config {
    /// Package of the file.
    pub package: Option<String>,
}

/// Language specialization for Go.
pub struct Go;

/// One element of a Go token stream.
#[derive(Debug, Clone)]
pub enum Item {
    /// Text reproduced verbatim.
    Literal(String),
    /// Text rendered as a quoted Go string literal.
    Quoted(String),
    /// A single space.
    Space,
    /// A line break.
    Push,
    /// A type, rendered as its use site and collected for imports.
    Type(Any),
}

/// A Go token stream.
#[derive(Debug, Clone)]
pub struct Tokens {
    pub items: Vec<Item>,
}

/// How one character stands inside a quoted Go string: the named escapes,
/// `\xHH` for any other control character, and the character itself
/// otherwise.
pub open spec fn escape_char(c: char) -> Seq<char> {
    if c == '\u{7}' {
        seq!['\\', 'a']
    } else if c == '\u{8}' {
        seq!['\\', 'b']
    } else if c == '\t' {
        seq!['\\', 't']
    } else if c == '\n' {
        seq!['\\', 'n']
    } else if c == '\u{b}' {
        seq!['\\', 'v']
    } else if c == '\u{c}' {
        seq!['\\', 'f']
    } else if c == '\r' {
        seq!['\\', 'r']
    } else if c == '"' || c == '\\' {
        seq!['\\', c]
    } else if '\u{1f}' >= c {
        seq!['\\', 'x', digit_char((c as u32) / 16), digit_char((c as u32) % 16)]
    } else {
        seq![c]
    }
}

/// The characters of `s`, each escaped.
pub open spec fn escaped(s: Seq<char>) -> Seq<char>
    decreases s.len(),
{
    if s.len() == 0 {
        seq![]
    } else {
        escaped(s.drop_last()) + escape_char(s.last())
    }
}

/// `s` as a quoted Go string literal.
pub open spec fn quoted(s: Seq<char>) -> Seq<char> {
    seq!['"'] + escaped(s) + seq!['"']
}

/// What follows the last `/` of a module path (all of it when it has none).
pub open spec fn last_segment(s: Seq<char>) -> Seq<char>
    decreases s.len(),
{
    if s.len() == 0 {
        seq![]
    } else if s.last() == '/' {
        seq![]
    } else {
        last_segment(s.drop_last()).push(s.last())
    }
}

/// The use-site spelling of a type.
pub open spec fn type_text(t: Any) -> Seq<char>
    decreases t,
{
    match t {
        Any::Type(ty) => match ty.module {
            Some(m) => last_segment(m@) + seq!['.'] + ty.name@,
            None => ty.name@,
        },
        Any::MapType(m) => "map["@ + type_text(*m.key) + "]"@ + type_text(*m.value),
        Any::Array(a) => "[]"@ + type_text(*a.inner),
        Any::Interface(_) => "interface{}"@,
    }
}

/// The modules that a type refers to, nested types included.
pub open spec fn type_modules(t: Any) -> Set<Seq<char>>
    decreases t,
{
    match t {
        Any::Type(ty) => match ty.module {
            Some(m) => set![m@],
            None => Set::empty(),
        },
        Any::MapType(m) => type_modules(*m.key) + type_modules(*m.value),
        Any::Array(a) => type_modules(*a.inner),
        Any::Interface(_) => Set::empty(),
    }
}

pub open spec fn item_text(i: Item) -> Seq<char> {
    match i {
        Item::Literal(s) => s@,
        Item::Quoted(s) => quoted(s@),
        Item::Space => " "@,
        Item::Push => "\n"@,
        Item::Type(t) => type_text(t),
    }
}

/// The body text of a token stream.
pub open spec fn items_text(items: Seq<Item>) -> Seq<char>
    decreases items.len(),
{
    if items.len() == 0 {
        seq![]
    } else {
        items_text(items.drop_last()) + item_text(items.last())
    }
}

pub open spec fn item_modules(i: Item) -> Set<Seq<char>> {
    match i {
        Item::Type(t) => type_modules(t),
        _ => Set::empty(),
    }
}

/// Every module that a token stream refers to.
pub open spec fn items_modules(items: Seq<Item>) -> Set<Seq<char>> {
    union_of(items, |i: Item| item_modules(i))
}

/// The modules to import for a token stream, in ascending order.
pub open spec fn imports_of(items: Seq<Item>) -> Seq<Seq<char>> {
    sorted_of(items_modules(items), text_order())
}

/// One import line per module, in the order given.
pub open spec fn import_lines(mods: Seq<Seq<char>>) -> Seq<char>
    decreases mods.len(),
{
    if mods.len() == 0 {
        seq![]
    } else {
        import_lines(mods.drop_last()) + "import "@ + quoted(mods.last()) + "\n"@
    }
}

/// The package line and the blank line after it, if a package is set.
pub open spec fn package_header(package: Option<Seq<char>>) -> Seq<char> {
    match package {
        Some(p) => "package "@ + p + "\n\n"@,
        None => seq![],
    }
}

/// The import block and the blank line after it, if anything is imported.
pub open spec fn import_block(mods: Seq<Seq<char>>) -> Seq<char> {
    if mods.len() == 0 {
        seq![]
    } else {
        import_lines(mods) + "\n"@
    }
}

/// A whole Go file: header, imports, body and a final line break.
pub open spec fn file_text(items: Seq<Item>, package: Option<Seq<char>>) -> Seq<char> {
    package_header(package) + import_block(imports_of(items)) + items_text(items) + "\n"@
}

impl Config {
    /// The package of the file, as characters.
    pub open spec fn package_view(&self) -> Option<Seq<char>> {
        match self.package {
            Some(p) => Some(p@),
            None => None,
        }
    }

    /// A configuration with no package.
    pub fn new() -> (r: Config)
        ensures
            r.package_view() == None::<Seq<char>>,
    {
        Config { package: None }
    }

    /// Configure the specified package.
    pub fn with_package(self, package: &str) -> (r: Config)
        ensures
            r.package_view() == Some(package@),
    {
        Config { package: Some(String::from_str(package)) }
    }
}

/// The part of a module path after its last `/`.
fn last_segment_of(m: &str) -> (r: String)
    ensures
        r@ == last_segment(m@),
{
    let n = m.unicode_len();
    let mut out = String::new();
    let mut i: usize = 0;
    while i < n
        invariant
            i <= n,
            n == m@.len(),
            out@ == last_segment(m@.take(i as int)),
        decreases n - i,
    {
        let c = m.get_char(i);
        assert(m@.take(i + 1 as int).drop_last() =~= m@.take(i as int));
        if c == '/' {
            out = String::new();
        } else {
            push_char(&mut out, c);
        }
        i = i + 1;
    }
    assert(m@.take(n as int) =~= m@);
    out
}

impl Any {
    /// Writes the use-site spelling of the type.
    pub fn format(&self, out: &mut String)
        ensures
            final(out)@ == old(out)@ + type_text(*self),
        decreases self,
    {
        let ghost start = out@;
        match self {
            Any::Type(ty) => {
                match &ty.module {
                    Some(m) => {
                        let seg = last_segment_of(m.as_str());
                        out.append(seg.as_str());
                        push_char(out, '.');
                    },
                    None => {},
                }
                out.append(ty.name.as_str());
            },
            Any::MapType(m) => {
                out.append("map[");
                m.key.format(out);
                out.append("]");
                m.value.format(out);
            },
            Any::Array(a) => {
                out.append("[]");
                a.inner.format(out);
            },
            Any::Interface(_) => {
                out.append("interface{}");
            },
        }
        assert(out@ =~= start + type_text(*self));
    }
}

/// Adds the modules that `t` refers to into an ascending vector of modules.
fn collect_modules(t: &Any, mods: &mut Vec<String>)
    requires
        sorted_by(views(old(mods)@), text_order()),
    ensures
        sorted_by(views(final(mods)@), text_order()),
        views(final(mods)@).to_set() == views(old(mods)@).to_set() + type_modules(*t),
    decreases t,
{
    let ghost start = views(mods@).to_set();
    match t {
        Any::Type(ty) => {
            match &ty.module {
                Some(m) => {
                    insert_text_sorted(mods, m.clone());
                    assert(start.insert(m@) =~= start + set![m@]);
                },
                None => {
                    assert(start + Set::empty() =~= start);
                },
            }
        },
        Any::MapType(m) => {
            collect_modules(&m.key, mods);
            collect_modules(&m.value, mods);
            assert(views(mods@).to_set() =~= start + type_modules(*t));
        },
        Any::Array(a) => {
            collect_modules(&a.inner, mods);
        },
        Any::Interface(_) => {
            assert(start + Set::empty() =~= start);
        },
    }
}

/// Writes one token as text.
fn write_item(item: &Item, out: &mut String)
    ensures
        final(out)@ == old(out)@ + item_text(*item),
{
    match item {
        Item::Literal(s) => out.append(s.as_str()),
        Item::Quoted(s) => {
            let q = Go::quote_string(s.as_str());
            out.append(q.as_str());
        },
        Item::Space => out.append(" "),
        Item::Push => out.append("\n"),
        Item::Type(t) => t.format(out),
    }
}

/// Writes the tokens of a stream as text, one after the other.
fn write_items(tokens: &Tokens, out: &mut String)
    ensures
        final(out)@ == old(out)@ + items_text(tokens.items@),
{
    let ghost start = out@;
    let n = tokens.items.len();
    let mut i: usize = 0;
    while i < n
        invariant
            i <= n,
            n == tokens.items@.len(),
            out@ == start + items_text(tokens.items@.take(i as int)),
        decreases n - i,
    {
        write_item(&tokens.items[i], out);
        assert(tokens.items@.take(i + 1 as int).drop_last() =~= tokens.items@.take(i as int));
        assert(out@ =~= start + items_text(tokens.items@.take(i + 1 as int)));
        i = i + 1;
    }
    assert(tokens.items@.take(n as int) =~= tokens.items@);
}

/// Writes one character as it stands inside a quoted Go string.
fn push_escaped(out: &mut String, c: char)
    ensures
        final(out)@ == old(out)@ + escape_char(c),
{
    let ghost start = out@;
    if c == '\u{7}' {
        push_char(out, '\\');
        push_char(out, 'a');
    } else if c == '\u{8}' {
        push_char(out, '\\');
        push_char(out, 'b');
    } else if c == '\t' {
        push_char(out, '\\');
        push_char(out, 't');
    } else if c == '\n' {
        push_char(out, '\\');
        push_char(out, 'n');
    } else if c == '\u{b}' {
        push_char(out, '\\');
        push_char(out, 'v');
    } else if c == '\u{c}' {
        push_char(out, '\\');
        push_char(out, 'f');
    } else if c == '\r' {
        push_char(out, '\\');
        push_char(out, 'r');
    } else if c == '"' || c == '\\' {
        push_char(out, '\\');
        push_char(out, c);
    } else if '\u{1f}' >= c {
        let v = c as u32;
        push_char(out, '\\');
        push_char(out, 'x');
        push_char(out, digit(v / 16));
        push_char(out, digit(v % 16));
    } else {
        push_char(out, c);
    }
    assert(out@ =~= start + escape_char(c));
}

impl Go {
    /// Quotes a string as a Go string literal, escaping double quotes,
    /// backslashes and every control character.
    pub fn quote_string(input: &str) -> (r: String)
        ensures
            r@ == quoted(input@),
    {
        let n = input.unicode_len();
        let mut out = String::new();
        push_char(&mut out, '"');
        let mut i: usize = 0;
        while i < n
            invariant
                i <= n,
                n == input@.len(),
                out@ == seq!['"'] + escaped(input@.take(i as int)),
            decreases n - i,
        {
            let c = input.get_char(i);
            push_escaped(&mut out, c);
            assert(input@.take(i + 1 as int).drop_last() =~= input@.take(i as int));
            assert(out@ =~= seq!['"'] + escaped(input@.take(i + 1 as int)));
            i = i + 1;
        }
        assert(input@.take(n as int) =~= input@);
        push_char(&mut out, '"');
        out
    }

    /// The modules that a token stream refers to, each once, in ascending order.
    pub fn imports(tokens: &Tokens) -> (r: Vec<String>)
        ensures
            views(r@) == imports_of(tokens.items@),
            sorted_by(views(r@), text_order()),
            views(r@).to_set() == items_modules(tokens.items@),
    {
        proof {
            lemma_text_order_strict();
        }
        let ghost items = tokens.items@;
        let mut mods: Vec<String> = Vec::new();
        assert(views(mods@).to_set() =~= Set::empty());
        let n = tokens.items.len();
        let mut i: usize = 0;
        while i < n
            invariant
                i <= n,
                n == items.len(),
                items == tokens.items@,
                sorted_by(views(mods@), text_order()),
                views(mods@).to_set() == items_modules(items.take(i as int)),
            decreases n - i,
        {
            match &tokens.items[i] {
                Item::Type(t) => collect_modules(t, &mut mods),
                _ => {
                    assert(views(mods@).to_set() + Set::empty() =~= views(mods@).to_set());
                },
            }
            assert(items.take(i + 1 as int).drop_last() =~= items.take(i as int));
            i = i + 1;
        }
        assert(items.take(n as int) =~= items);
        proof {
            lemma_sorted_of_is(views(mods@), text_order());
        }
        mods
    }

    /// Renders a whole file: the package line, the imports of every module
    /// that the stream refers to, and the stream itself.
    pub fn format_file(tokens: &Tokens, config: &Config) -> (r: String)
        ensures
            r@ == file_text(tokens.items@, config.package_view()),
    {
        let mut out = String::new();
        match &config.package {
            Some(p) => {
                out.append("package ");
                out.append(p.as_str());
                out.append("\n\n");
            },
            None => {},
        }
        let ghost header = out@;
        assert(header =~= package_header(config.package_view()));
        let mods = Go::imports(tokens);
        let ghost mv = views(mods@);
        if mods.len() > 0 {
            let mut j: usize = 0;
            while j < mods.len()
                invariant
                    j <= mods.len(),
                    mv == views(mods@),
                    out@ == header + import_lines(mv.take(j as int)),
                decreases mods.len() - j,
            {
                out.append("import ");
                let q = Go::quote_string(mods[j].as_str());
                out.append(q.as_str());
                out.append("\n");
                assert(mv.take(j + 1 as int).drop_last() =~= mv.take(j as int));
                assert(out@ =~= header + import_lines(mv.take(j + 1 as int)));
                j = j + 1;
            }
            assert(mv.take(mods.len() as int) =~= mv);
            out.append("\n");
        }
        assert(out@ =~= header + import_block(mv));
        let ghost before = out@;
        write_items(tokens, &mut out);
        out.append("\n");
        assert(out@ =~= file_text(tokens.items@, config.package_view()));
        out
    }
}

impl Tokens {
    /// An empty token stream.
    pub fn new() -> (r: Tokens)
        ensures
            r.items@ == Seq::<Item>::empty(),
    {
        Tokens { items: Vec::new() }
    }

    /// Adds one token at the end.
    pub fn append(&mut self, item: Item)
        ensures
            final(self).items@ == old(self).items@.push(item),
    {
        self.items.push(item);
    }

    /// Adds a space at the end.
    pub fn space(&mut self)
        ensures
            final(self).items@ == old(self).items@.push(Item::Space),
    {
        self.items.push(Item::Space);
    }

    /// Adds a line break at the end.
    pub fn push(&mut self)
        ensures
            final(self).items@ == old(self).items@.push(Item::Push),
    {
        self.items.push(Item::Push);
    }

    /// The stream as text, without a file header.
    pub fn to_string(&self) -> (r: String)
        ensures
            r@ == items_text(self.items@),
    {
        let mut out = String::new();
        write_items(self, &mut out);
        out
    }

    /// The stream as a whole file with no package.
    pub fn to_file_string(&self) -> (r: String)
        ensures
            r@ == file_text(self.items@, None),
    {
        Go::format_file(self, &Config::new())
    }
}

/// Setup an imported element.
pub fn imported(module: &str, name: &str) -> (r: Type)
    ensures
        r.module matches Some(m) && m@ == module@,
        r.name@ == name@,
{
    Type { module: Some(String::from_str(module)), name: String::from_str(name) }
}

/// Setup a local element.
pub fn local(name: &str) -> (r: Type)
    ensures
        r.module is None,
        r.name@ == name@,
{
    Type { module: None, name: String::from_str(name) }
}

/// Setup a map.
pub fn map(key: Any, value: Any) -> (r: MapType)
    ensures
        *r.key == key,
        *r.value == value,
{
    MapType { key: Box::new(key), value: Box::new(value) }
}

/// Setup an array.
pub fn array(inner: Any) -> (r: Array)
    ensures
        *r.inner == inner,
{
    Array { inner: Box::new(inner) }
}

impl Clone for Type {
    fn clone(&self) -> (r: Type)
        ensures
            r == *self,
    {
        let module = match &self.module {
            Some(m) => Some(m.clone()),
            None => None,
        };
        Type { module, name: self.name.clone() }
    }
}

impl Clone for Any {
    fn clone(&self) -> (r: Any)
        ensures
            r == *self,
        decreases self,
    {
        match self {
            Any::Type(t) => Any::Type(t.clone()),
            Any::MapType(m) => Any::MapType(m.clone()),
            Any::Array(a) => Any::Array(a.clone()),
            Any::Interface(i) => Any::Interface(*i),
        }
    }
}

impl Clone for MapType {
    fn clone(&self) -> (r: MapType)
        ensures
            r == *self,
        decreases self,
    {
        MapType { key: Box::new((*self.key).clone()), value: Box::new((*self.value).clone()) }
    }
}

impl Clone for Array {
    fn clone(&self) -> (r: Array)
        ensures
            r == *self,
        decreases self,
    {
        Array { inner: Box::new((*self.inner).clone()) }
    }
}

impl Default for Config {
    fn default() -> (r: Config)
        ensures
            r.package_view() == None::<Seq<char>>,
    {
        Config::new()
    }
}

} // verus!
