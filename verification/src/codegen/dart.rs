//! Dart: a class with `fromJson` and `toJson` for every declaration.

use crate::accumulator::{Call, TypeAccumulator};
use crate::codegen::declarations::{add_all, concat, texts};
use crate::text::{decimal, decimal_string, same_text};
use crate::types::{Error, JsonType, Number, Shape};
use vstd::prelude::*;
use vstd::string::*;

verus! {

/// `String::pop` takes the last character off a string and gives it, and
/// gives nothing of an empty string, which it leaves empty.
pub assume_specification[ std::string::String::pop ](s: &mut std::string::String) -> (r: Option<
    char,
>)
    ensures
        final(s)@ == drop_char(old(s)@),
        r == if old(s)@.len() > 0 {
            Some(old(s)@.last())
        } else {
            None
        },
;

/// A text without its last character, if it has one.
pub open spec fn drop_char(text: Seq<char>) -> Seq<char> {
    if text.len() > 0 {
        text.drop_last()
    } else {
        text
    }
}

/// The Dart type of a kind of number.
pub open spec fn dart_number(number: Number) -> Seq<char> {
    match number {
        Number::Int => "int"@,
        Number::Float => "double"@,
    }
}

/// The Dart type for a type.
pub open spec fn dart_type(ty: Shape) -> Seq<char>
    decreases ty,
{
    match ty {
        Shape::Null => "dynamic"@,
        Shape::Number(number) => dart_number(number),
        Shape::Boolean => "bool"@,
        Shape::String => "String"@,
        Shape::Object(name) => name,
        Shape::Array(element) => "List<"@ + dart_type(*element) + ">"@,
    }
}

/// `inner` inside `n` lists.
pub open spec fn dart_list(inner: Seq<char>, n: nat) -> Seq<char>
    decreases n,
{
    if n == 0 {
        inner
    } else {
        "List<"@ + dart_list(inner, (n - 1) as nat) + ">"@
    }
}

/// Whether a type is one that Dart has, which is read and written as it
/// is.
pub open spec fn is_builtin(ty: Seq<char>) -> bool {
    ty == "dynamic"@ || ty == "bool"@ || ty == "String"@ || ty == "double"@ || ty == "int"@
}

/// What a field of a class is to `fromJson` and `toJson`.
pub enum FieldKind {
    /// A value that is read and written as it is.
    Primitive,
    /// An object of a class of its own.
    Struct,
    /// Lists inside one another, `depth` of them, of `very_inner`.
    Array { very_inner: Seq<char>, depth: nat },
}

/// How `fromJson` reads a list `depth` deep: the name bound by the
/// outermost `map` so far, and the expression so far, after `k` of the
/// `depth` levels, from the inside out.
pub open spec fn read_list(field: Seq<char>, very_inner: Seq<char>, depth: nat, k: nat) -> (
    Seq<char>,
    Seq<char>,
)
    decreases k,
{
    if k == 0 {
        (
            "i"@,
            if is_builtin(very_inner) {
                "i"@
            } else {
                very_inner + ".fromJson("@ + "i"@ + ")"@
            },
        )
    } else {
        let inner = read_list(field, very_inner, depth, (k - 1) as nat);
        let bound = if k == depth {
            "json['"@ + field + "']"@
        } else {
            "i"@ + decimal((k - 1) as nat)
        };
        (
            bound,
            dart_list(very_inner, k) + ".from("@ + bound + ".map(("@ + inner.0 + ") => "@ + inner.1
                + "))"@,
        )
    }
}

/// How `toJson` writes a list `depth` deep, after `k` of the `depth`
/// levels, from the inside out.
pub open spec fn write_list(field: Seq<char>, very_inner: Seq<char>, depth: nat, k: nat) -> (
    Seq<char>,
    Seq<char>,
)
    decreases k,
{
    if k == 0 {
        (
            "i"@,
            if is_builtin(very_inner) {
                "i"@
            } else {
                "i"@ + ".toJson()"@
            },
        )
    } else {
        let inner = write_list(field, very_inner, depth, (k - 1) as nat);
        let bound = if k == depth {
            field
        } else {
            "i"@ + decimal((k - 1) as nat)
        };
        (bound, bound + ".map(("@ + inner.0 + ") => "@ + inner.1 + ").toList()"@)
    }
}

/// The expression with which `fromJson` reads a field.
pub open spec fn read_field(field: Seq<char>, kind: FieldKind) -> Seq<char> {
    match kind {
        FieldKind::Array { very_inner, depth } => read_list(field, very_inner, depth, depth).1,
        _ => "json['"@ + field + "']"@,
    }
}

/// The expression with which `toJson` writes a field.
pub open spec fn write_field(field: Seq<char>, kind: FieldKind) -> Seq<char> {
    match kind {
        FieldKind::Struct => field + ".toJson()"@,
        FieldKind::Primitive => field,
        FieldKind::Array { very_inner, depth } => write_list(field, very_inner, depth, depth).1,
    }
}

/// The lines of `fromJson` for the first `n` fields.
pub open spec fn read_lines(fields: Seq<(Seq<char>, FieldKind)>, n: nat) -> Seq<char>
    decreases n,
{
    if n == 0 || n > fields.len() {
        Seq::empty()
    } else {
        read_lines(fields, (n - 1) as nat) + ("\t\t"@ + fields[n - 1].0 + " = "@ + read_field(
            fields[n - 1].0,
            fields[n - 1].1,
        ) + ",\n"@)
    }
}

/// The lines of `toJson` for the first `n` fields.
pub open spec fn write_lines(fields: Seq<(Seq<char>, FieldKind)>, n: nat) -> Seq<char>
    decreases n,
{
    if n == 0 || n > fields.len() {
        Seq::empty()
    } else {
        write_lines(fields, (n - 1) as nat) + ("\n\t\t'"@ + fields[n - 1].0 + "': "@
            + write_field(fields[n - 1].0, fields[n - 1].1) + ","@)
    }
}

/// A class that is open.
pub struct DartClass {
    /// Its text so far: the header and the fields.
    pub acc: Seq<char>,
    /// Its name.
    pub name: Seq<char>,
    /// Its fields, each with what it is to `fromJson` and `toJson`.
    pub fields: Seq<(Seq<char>, FieldKind)>,
}

/// The whole text of a class: the fields, `fromJson` without the comma and
/// the line break behind its last line, and `toJson`.
pub open spec fn dart_class(class: DartClass) -> Seq<char> {
    drop_char(
        drop_char(
            class.acc + ("\t"@ + class.name + ".fromJson(Map<String, dynamic> json):\n"@)
                + read_lines(class.fields, class.fields.len()),
        ),
    ) + ";\n\n"@ + "\tMap<String, dynamic> toJson() => {"@ + write_lines(
        class.fields,
        class.fields.len(),
    ) + "\n\t};\n"@ + "}\n\n"@
}

/// What a call adds to the text of the open class.
pub open spec fn dart_text(call: Call) -> Seq<char> {
    match call {
        Call::PushObjectType(name) => "class "@ + name + " {\n"@,
        Call::PopObjectType => Seq::empty(),
        Call::Number(key, number) => "\tfinal "@ + dart_number(number) + " "@ + key + ";\n"@,
        Call::Boolean(key) => "\tfinal bool "@ + key + ";\n"@,
        Call::String(key) => "\tfinal String "@ + key + ";\n"@,
        Call::Unknown(key) => "\tfinal dynamic "@ + key + ";\n"@,
        Call::Array(key, element) => "\tfinal "@ + ("List<"@ + dart_type(element) + ">"@) + " "@
            + key + ";\n"@,
        Call::Object(key, name) => "\tfinal "@ + name + " "@ + key + ";\n"@,
    }
}

/// The field that a call gives the open class, if it gives one.
pub open spec fn dart_field(call: Call) -> Option<(Seq<char>, FieldKind)> {
    match call {
        Call::PushObjectType(_) => None,
        Call::PopObjectType => None,
        Call::Number(key, _) => Some((key, FieldKind::Primitive)),
        Call::Boolean(key) => Some((key, FieldKind::Primitive)),
        Call::String(key) => Some((key, FieldKind::Primitive)),
        Call::Unknown(key) => Some((key, FieldKind::Primitive)),
        Call::Array(key, element) => Some(
            (
                key,
                FieldKind::Array {
                    very_inner: dart_type(element.innermost()),
                    depth: 1 + element.array_depth(),
                },
            ),
        ),
        Call::Object(key, _) => Some((key, FieldKind::Struct)),
    }
}

/// What the text ends with.
pub const DART_END: &'static str =
    "//  import 'dart:convert';\n//  var data = jsonDecode(\"{ ... }\");\n//  var ty = T.fromJson(data);\n//  jsonEncode(ty.toJson());";

/// What a [`DartAccumulator`] holds.
pub struct DartState {
    /// The classes that are open, innermost last.
    pub open: Seq<DartClass>,
    /// The texts of the classes that are closed, in the order in which
    /// they were closed.
    pub closed: Seq<Seq<char>>,
}

/// A list as deep as it is: its depth, and what is inside all the lists.
pub struct ArrayField {
    very_inner: String,
    depth: usize,
}

impl ArrayField {
    /// `begin` and the number of arrays nested at the top of `ty`.
    pub fn depth_from_ty(ty: &JsonType, begin: usize) -> (depth: usize)
        requires
            begin + ty@.array_depth() <= usize::MAX,
        ensures
            depth == begin + ty@.array_depth(),
        decreases ty,
    {
        match ty {
            JsonType::Array(a) => Self::depth_from_ty(&**a, begin + 1),
            _ => begin,
        }
    }

    /// Whether `begin` and the number of arrays nested at the top of `ty`
    /// is a number that `usize` holds.
    pub fn depth_fits(ty: &JsonType, begin: usize) -> (fits: bool)
        ensures
            fits == (begin + ty@.array_depth() <= usize::MAX),
        decreases ty,
    {
        match ty {
            JsonType::Array(a) => begin < usize::MAX && Self::depth_fits(&**a, begin + 1),
            _ => true,
        }
    }
}

/// What a field of a class is to `fromJson` and `toJson`.
enum FieldType {
    Primitive,
    Struct,
    Array(ArrayField),
}

impl View for FieldType {
    type V = FieldKind;

    closed spec fn view(&self) -> FieldKind {
        match self {
            FieldType::Primitive => FieldKind::Primitive,
            FieldType::Struct => FieldKind::Struct,
            FieldType::Array(a) => FieldKind::Array {
                very_inner: a.very_inner@,
                depth: a.depth as nat,
            },
        }
    }
}

/// A class that is open: its text so far, its name and its fields.
struct StructItem {
    acc: String,
    name: String,
    fields: Vec<(String, FieldType)>,
}

/// The fields of a class, each under its name.
spec fn kinds(fields: Seq<(String, FieldType)>) -> Seq<(Seq<char>, FieldKind)> {
    Seq::new(fields.len(), |i: int| (fields[i].0@, fields[i].1@))
}

impl View for StructItem {
    type V = DartClass;

    closed spec fn view(&self) -> DartClass {
        DartClass { acc: self.acc@, name: self.name@, fields: kinds(self.fields@) }
    }
}

/// The classes of a stack.
spec fn classes(items: Seq<StructItem>) -> Seq<DartClass> {
    Seq::new(items.len(), |i: int| items[i]@)
}

/// Writes Dart.
pub struct DartAccumulator {
    struct_stack: Vec<StructItem>,
    done_list: Vec<String>,
}

impl View for DartAccumulator {
    type V = DartState;

    closed spec fn view(&self) -> DartState {
        DartState { open: classes(self.struct_stack@), closed: texts(self.done_list@) }
    }
}

/// The expression that reads or writes the list of a field: what reads or
/// writes one element inside, then one `map` for each level of the list.
fn list_expression(field: &str, s: &ArrayField, reading: bool) -> (r: String)
    ensures
        r@ == if reading {
            read_list(field@, s.very_inner@, s.depth as nat, s.depth as nat).1
        } else {
            write_list(field@, s.very_inner@, s.depth as nat, s.depth as nat).1
        },
{
    let mut iname = String::from_str("i");
    let mut acc = if DartAccumulator::is_builtin_type(s.very_inner.as_str()) {
        iname.clone()
    } else if reading {
        let mut acc = s.very_inner.clone();
        acc.append(".fromJson(");
        acc.append(iname.as_str());
        acc.append(")");
        acc
    } else {
        let mut acc = iname.clone();
        acc.append(".toJson()");
        acc
    };
    let mut depth: usize = 0;
    while depth < s.depth
        invariant
            depth <= s.depth,
            (iname@, acc@) == if reading {
                read_list(field@, s.very_inner@, s.depth as nat, depth as nat)
            } else {
                write_list(field@, s.very_inner@, s.depth as nat, depth as nat)
            },
        decreases s.depth - depth,
    {
        let next_iname = if depth == s.depth - 1 {
            if reading {
                let mut next = String::from_str("json['");
                next.append(field);
                next.append("']");
                next
            } else {
                String::from_str(field)
            }
        } else {
            let mut next = String::from_str("i");
            let number = decimal_string(depth);
            next.append(number.as_str());
            next
        };
        let mut next_acc = if reading {
            let mut list = list_from_depth(s.very_inner.as_str(), depth);
            list.append(".from(");
            list.append(next_iname.as_str());
            list
        } else {
            next_iname.clone()
        };
        next_acc.append(".map((");
        next_acc.append(iname.as_str());
        next_acc.append(") => ");
        next_acc.append(acc.as_str());
        if reading {
            next_acc.append("))");
        } else {
            next_acc.append(").toList()");
        }
        acc = next_acc;
        iname = next_iname;
        depth = depth + 1;
    }
    acc
}

/// `name` inside `depth + 1` lists.
fn list_from_depth(name: &str, depth: usize) -> (r: String)
    ensures
        r@ == dart_list(name@, (depth + 1) as nat),
{
    let mut acc = String::from_str("List<");
    acc.append(name);
    acc.append(">");
    let mut i: usize = 0;
    assert(dart_list(name@, 0) == name@);
    while i < depth
        invariant
            i <= depth,
            acc@ == dart_list(name@, (i + 1) as nat),
        decreases depth - i,
    {
        let mut next = String::from_str("List<");
        next.append(acc.as_str());
        next.append(">");
        acc = next;
        i = i + 1;
    }
    acc
}

impl DartAccumulator {
    /// An accumulator without a class.
    pub fn begin() -> (r: DartAccumulator)
        ensures
            r@ == (DartState { open: Seq::empty(), closed: Seq::empty() }),
    {
        let r = DartAccumulator { struct_stack: Vec::new(), done_list: Vec::new() };
        assert(classes(r.struct_stack@) =~= Seq::empty());
        assert(texts(r.done_list@) =~= Seq::empty());
        r
    }

    fn is_builtin_type(s: &str) -> (r: bool)
        ensures
            r == is_builtin(s@),
    {
        same_text(s, "dynamic") || same_text(s, "bool") || same_text(s, "String") || same_text(
            s,
            "double",
        ) || same_text(s, "int")
    }

    fn get_type(ty: &JsonType) -> (r: String)
        ensures
            r@ == dart_type(ty@),
        decreases ty,
    {
        match ty {
            JsonType::Null => String::from_str("dynamic"),
            JsonType::Number(n) => String::from_str(Self::get_number(*n)),
            JsonType::Boolean => String::from_str("bool"),
            JsonType::String => String::from_str("String"),
            JsonType::Object(name) => name.clone(),
            JsonType::Array(element) => {
                let mut r = String::from_str("List<");
                let inner = Self::get_type(&**element);
                r.append(inner.as_str());
                r.append(">");
                r
            },
        }
    }

    fn get_without_outer_list(ty: &JsonType) -> (r: String)
        ensures
            r@ == dart_type(ty@.innermost()),
        decreases ty,
    {
        match ty {
            JsonType::Null => String::from_str("dynamic"),
            JsonType::Number(n) => String::from_str(Self::get_number(*n)),
            JsonType::Boolean => String::from_str("bool"),
            JsonType::String => String::from_str("String"),
            JsonType::Object(name) => name.clone(),
            JsonType::Array(element) => Self::get_without_outer_list(&**element),
        }
    }

    fn get_number(num: Number) -> (r: &'static str)
        ensures
            r@ == dart_number(num),
    {
        match num {
            Number::Int => "int",
            Number::Float => "double",
        }
    }

    /// Adds a field to the innermost open class: its line, and what it is.
    fn add_field(&mut self, line: String, key: &str, kind: FieldType, Ghost(call): Ghost<Call>)
        requires
            old(self)@.open.len() > 0,
            line@ == dart_text(call),
            dart_field(call) == Some((key@, kind@)),
        ensures
            final(self)@ == Self::apply(old(self)@, call),
    {
        let n = self.struct_stack.len();
        let ghost before = self.struct_stack@[n - 1];
        self.struct_stack[n - 1].acc.append(line.as_str());
        self.struct_stack[n - 1].fields.push((String::from_str(key), kind));
        proof {
            let after = self.struct_stack@[n - 1];
            assert(kinds(after.fields@) =~= kinds(before.fields@).push((key@, kind@)));
            assert(classes(self.struct_stack@) =~= classes(old(self).struct_stack@).update(
                n - 1,
                after@,
            ));
        }
    }
}

impl Default for DartAccumulator {
    fn default() -> (r: DartAccumulator)
        ensures
            r@ == (DartState { open: Seq::empty(), closed: Seq::empty() }),
    {
        DartAccumulator::begin()
    }
}

impl TypeAccumulator for DartAccumulator {
    open spec fn open_types(state: DartState) -> nat {
        state.open.len()
    }

    open spec fn name_prefix(state: DartState) -> Seq<char> {
        "_Type"@
    }

    /// A list so deep that `usize` does not hold its depth is turned down.
    open spec fn refusal(state: DartState, call: Call) -> Option<Error> {
        match call {
            Call::Array(_, element) => if 1 + element.array_depth() <= usize::MAX {
                None
            } else {
                Some(Error::TypeNotSupported)
            },
            _ => None,
        }
    }

    open spec fn apply(state: DartState, call: Call) -> DartState {
        match call {
            _ if Self::refusal(state, call) is Some => state,
            Call::PushObjectType(name) => DartState {
                open: state.open.push(
                    DartClass { acc: dart_text(call), name, fields: Seq::empty() },
                ),
                ..state
            },
            _ => if state.open.len() == 0 {
                state
            } else if call is PopObjectType {
                DartState {
                    open: state.open.drop_last(),
                    closed: state.closed.push(dart_class(state.open.last())),
                }
            } else {
                DartState {
                    open: state.open.update(
                        state.open.len() - 1,
                        DartClass {
                            acc: state.open.last().acc + dart_text(call),
                            fields: state.open.last().fields.push(dart_field(call)->Some_0),
                            ..state.open.last()
                        },
                    ),
                    ..state
                }
            },
        }
    }

    open spec fn rendered(state: DartState) -> Seq<char> {
        concat(state.closed) + DART_END@
    }

    open spec fn ended(state: DartState) -> DartState {
        state
    }

    proof fn lemma_taken_call(state: DartState, call: Call) {
    }

    fn end(&mut self) -> (text: String) {
        let mut end_str = String::new();
        add_all(&mut end_str, &self.done_list);
        end_str.append(DART_END);
        end_str
    }

    fn number(&mut self, key: &str, number: Number) -> (r: Result<(), Error>) {
        let mut line = String::from_str("\tfinal ");
        line.append(Self::get_number(number));
        line.append(" ");
        line.append(key);
        line.append(";\n");
        self.add_field(line, key, FieldType::Primitive, Ghost(Call::Number(key@, number)));
        Ok(())
    }

    fn boolean(&mut self, key: &str) -> (r: Result<(), Error>) {
        let mut line = String::from_str("\tfinal bool ");
        line.append(key);
        line.append(";\n");
        self.add_field(line, key, FieldType::Primitive, Ghost(Call::Boolean(key@)));
        Ok(())
    }

    fn string(&mut self, key: &str) -> (r: Result<(), Error>) {
        let mut line = String::from_str("\tfinal String ");
        line.append(key);
        line.append(";\n");
        self.add_field(line, key, FieldType::Primitive, Ghost(Call::String(key@)));
        Ok(())
    }

    fn unknown(&mut self, key: &str) -> (r: Result<(), Error>) {
        let mut line = String::from_str("\tfinal dynamic ");
        line.append(key);
        line.append(";\n");
        self.add_field(line, key, FieldType::Primitive, Ghost(Call::Unknown(key@)));
        Ok(())
    }

    fn array(&mut self, key: &str, ty: JsonType) -> (r: Result<(), Error>) {
        if !ArrayField::depth_fits(&ty, 1) {
            return Err(Error::TypeNotSupported);
        }
        let ty_str = Self::get_type(&ty);
        let ty_without_outer = Self::get_without_outer_list(&ty);
        let mut ty_name = String::from_str("List<");
        ty_name.append(ty_str.as_str());
        ty_name.append(">");
        let mut line = String::from_str("\tfinal ");
        line.append(ty_name.as_str());
        line.append(" ");
        line.append(key);
        line.append(";\n");
        let field = FieldType::Array(
            ArrayField { very_inner: ty_without_outer, depth: ArrayField::depth_from_ty(&ty, 1) },
        );
        self.add_field(line, key, field, Ghost(Call::Array(key@, ty@)));
        Ok(())
    }

    fn object(&mut self, key: &str, object_name: &str) -> (r: Result<(), Error>) {
        let mut line = String::from_str("\tfinal ");
        line.append(object_name);
        line.append(" ");
        line.append(key);
        line.append(";\n");
        self.add_field(line, key, FieldType::Struct, Ghost(Call::Object(key@, object_name@)));
        Ok(())
    }

    fn push_object_type(&mut self, object_name: &str) -> (r: Result<(), Error>) {
        let mut acc = String::from_str("class ");
        acc.append(object_name);
        acc.append(" {\n");
        self.struct_stack.push(
            StructItem { acc, name: String::from_str(object_name), fields: Vec::new() },
        );
        proof {
            let n = self.struct_stack@.len() as int;
            assert(kinds(self.struct_stack@[n - 1].fields@) =~= Seq::empty());
            assert(classes(self.struct_stack@) =~= classes(old(self).struct_stack@).push(
                self.struct_stack@[n - 1]@,
            ));
        }
        Ok(())
    }

    fn pop_object_type(&mut self) -> (r: Result<(), Error>) {
        let ghost class = self@.open.last();
        let StructItem { acc, name, fields } = self.struct_stack.pop().unwrap();
        let mut acc = acc;
        let mut head = String::from_str("\t");
        head.append(name.as_str());
        head.append(".fromJson(Map<String, dynamic> json):\n");
        acc.append(head.as_str());
        let ghost start = acc@;
        assert(class.fields == kinds(fields@));
        let mut i: usize = 0;
        assert(acc@ =~= start + read_lines(class.fields, 0));
        while i < fields.len()
            invariant
                i <= fields@.len(),
                class.fields == kinds(fields@),
                acc@ == start + read_lines(class.fields, i as nat),
            decreases fields@.len() - i,
        {
            let field = fields[i].0.as_str();
            let mut line = String::from_str("\t\t");
            line.append(field);
            line.append(" = ");
            let value = match &fields[i].1 {
                FieldType::Struct | FieldType::Primitive => {
                    let mut value = String::from_str("json['");
                    value.append(field);
                    value.append("']");
                    value
                },
                FieldType::Array(s) => list_expression(field, s, true),
            };
            line.append(value.as_str());
            line.append(",\n");
            acc.append(line.as_str());
            assert(acc@ =~= start + read_lines(class.fields, (i + 1) as nat));
            i = i + 1;
        }
        acc.pop();
        acc.pop();
        acc.append(";\n\n");
        acc.append("\tMap<String, dynamic> toJson() => {");
        let ghost middle = acc@;
        let mut i: usize = 0;
        assert(acc@ =~= middle + write_lines(class.fields, 0));
        while i < fields.len()
            invariant
                i <= fields@.len(),
                class.fields == kinds(fields@),
                acc@ == middle + write_lines(class.fields, i as nat),
            decreases fields@.len() - i,
        {
            let field = fields[i].0.as_str();
            let mut line = String::from_str("\n\t\t'");
            line.append(field);
            line.append("': ");
            let value = match &fields[i].1 {
                FieldType::Struct => {
                    let mut value = String::from_str(field);
                    value.append(".toJson()");
                    value
                },
                FieldType::Primitive => String::from_str(field),
                FieldType::Array(s) => list_expression(field, s, false),
            };
            line.append(value.as_str());
            line.append(",");
            acc.append(line.as_str());
            assert(acc@ =~= middle + write_lines(class.fields, (i + 1) as nat));
            i = i + 1;
        }
        acc.append("\n\t};\n");
        acc.append("}\n\n");
        assert(acc@ == dart_class(class));
        self.done_list.push(acc);
        proof {
            assert(classes(self.struct_stack@) =~= classes(old(self).struct_stack@).drop_last());
            assert(texts(self.done_list@) =~= texts(old(self).done_list@).push(dart_class(class)));
        }
        Ok(())
    }

    fn prefered_object_name(&self) -> (name: String) {
        String::from_str("_Type")
    }
}

} // verus!
