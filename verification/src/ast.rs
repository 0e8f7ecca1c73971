//! The syntax tree of a program: headers, structs, parsers, controls and
//! what they are made of.

use vstd::prelude::*;
use vstd::string::StringExecFns;
use crate::lexer::Token;

verus! {

/// A whole program.
#[derive(Debug)]
pub struct AST {
    pub constants: Vec<Constant>,
    pub headers: Vec<Header>,
    pub structs: Vec<Struct>,
    pub typedefs: Vec<Typedef>,
    pub controls: Vec<Control>,
    pub parsers: Vec<Parser>,
    pub packages: Vec<Package>,
    pub package_instance: Option<PackageInstance>,
}

impl Default for AST {
    fn default() -> (r: Self)
        ensures
            r.constants@.len() == 0,
            r.headers@.len() == 0,
            r.structs@.len() == 0,
            r.typedefs@.len() == 0,
            r.controls@.len() == 0,
            r.parsers@.len() == 0,
            r.packages@.len() == 0,
            r.package_instance is None,
    {
        Self {
            constants: Vec::new(),
            headers: Vec::new(),
            structs: Vec::new(),
            typedefs: Vec::new(),
            controls: Vec::new(),
            parsers: Vec::new(),
            packages: Vec::new(),
            package_instance: None,
        }
    }
}

impl AST {
    /// Whether `i` is the first struct of that name.
    pub open spec fn is_first_struct(&self, name: Seq<char>, i: int) -> bool {
        &&& 0 <= i < self.structs@.len()
        &&& self.structs@[i].name@ == name
        &&& forall|j: int| 0 <= j < i ==> self.structs@[j].name@ != name
    }

    /// Whether `i` is the first header of that name.
    pub open spec fn is_first_header(&self, name: Seq<char>, i: int) -> bool {
        &&& 0 <= i < self.headers@.len()
        &&& self.headers@[i].name@ == name
        &&& forall|j: int| 0 <= j < i ==> self.headers@[j].name@ != name
    }

    /// The first struct of that name, if there is one.
    pub fn get_struct(&self, name: &str) -> (r: Option<&Struct>)
        ensures
            match r {
                Some(s) => exists|i: int|
                    self.is_first_struct(name@, i) && *s == #[trigger] self.structs@[i],
                None => forall|i: int|
                    0 <= i < self.structs@.len() ==> (#[trigger] self.structs@[i]).name@ != name@,
            },
    {
        let wanted = String::from_str(name);
        let mut i: usize = 0;
        while i < self.structs.len()
            invariant
                i <= self.structs@.len(),
                wanted@ == name@,
                forall|j: int| 0 <= j < i ==> (#[trigger] self.structs@[j]).name@ != name@,
            decreases self.structs@.len() - i,
        {
            if self.structs[i].name == wanted {
                assert(self.is_first_struct(name@, i as int));
                return Some(&self.structs[i]);
            }
            i += 1;
        }
        None
    }

    /// The first header of that name, if there is one.
    pub fn get_header(&self, name: &str) -> (r: Option<&Header>)
        ensures
            match r {
                Some(s) => exists|i: int|
                    self.is_first_header(name@, i) && *s == #[trigger] self.headers@[i],
                None => forall|i: int|
                    0 <= i < self.headers@.len() ==> (#[trigger] self.headers@[i]).name@ != name@,
            },
    {
        let wanted = String::from_str(name);
        let mut i: usize = 0;
        while i < self.headers.len()
            invariant
                i <= self.headers@.len(),
                wanted@ == name@,
                forall|j: int| 0 <= j < i ==> (#[trigger] self.headers@[j]).name@ != name@,
            decreases self.headers@.len() - i,
        {
            if self.headers[i].name == wanted {
                assert(self.is_first_header(name@, i as int));
                return Some(&self.headers[i]);
            }
            i += 1;
        }
        None
    }
}

/// The instantiation of a package.
#[derive(Debug)]
pub struct PackageInstance {
    pub instance_type: String,
    pub name: String,
    pub parameters: Vec<String>,
}

impl PackageInstance {
    pub fn new(instance_type: String) -> (r: Self)
        ensures
            r.instance_type == instance_type,
            r.name@.len() == 0,
            r.parameters@.len() == 0,
    {
        Self { instance_type, name: String::new(), parameters: Vec::new() }
    }
}

/// A package declaration.
#[derive(Debug)]
pub struct Package {
    pub name: String,
    pub type_parameters: Vec<String>,
    pub parameters: Vec<PackageParameter>,
}

impl Package {
    pub fn new(name: String) -> (r: Self)
        ensures
            r.name == name,
            r.type_parameters@.len() == 0,
            r.parameters@.len() == 0,
    {
        Self { name, type_parameters: Vec::new(), parameters: Vec::new() }
    }
}

/// A parameter of a package.
#[derive(Debug)]
pub struct PackageParameter {
    pub ty_name: String,
    pub type_parameters: Vec<String>,
    pub name: String,
}

impl PackageParameter {
    pub fn new(ty_name: String) -> (r: Self)
        ensures
            r.ty_name == ty_name,
            r.type_parameters@.len() == 0,
            r.name@.len() == 0,
    {
        Self { ty_name, type_parameters: Vec::new(), name: String::new() }
    }
}

/// The type of a field, member, parameter or variable.
#[derive(Debug, Clone)]
pub enum Type {
    Bool,
    Error,
    Bit(usize),
    Varbit(usize),
    Int(usize),
    String,
    UserDefined(String),
}

/// The digit `d` as a character.
pub open spec fn digit_text(d: nat) -> Seq<char> {
    if d == 0 {
        "0"@
    } else if d == 1 {
        "1"@
    } else if d == 2 {
        "2"@
    } else if d == 3 {
        "3"@
    } else if d == 4 {
        "4"@
    } else if d == 5 {
        "5"@
    } else if d == 6 {
        "6"@
    } else if d == 7 {
        "7"@
    } else if d == 8 {
        "8"@
    } else {
        "9"@
    }
}

/// The number `n` in decimal digits, without leading zeros.
pub open spec fn decimal_text(n: nat) -> Seq<char>
    decreases n,
{
    if n < 10 {
        digit_text(n)
    } else {
        decimal_text(n / 10) + digit_text(n % 10)
    }
}

/// The digit `d` as text.
fn digit(d: usize) -> (r: &'static str)
    requires
        d < 10,
    ensures
        r@ == digit_text(d as nat),
{
    if d == 0 {
        "0"
    } else if d == 1 {
        "1"
    } else if d == 2 {
        "2"
    } else if d == 3 {
        "3"
    } else if d == 4 {
        "4"
    } else if d == 5 {
        "5"
    } else if d == 6 {
        "6"
    } else if d == 7 {
        "7"
    } else if d == 8 {
        "8"
    } else {
        "9"
    }
}

/// The number `n` in decimal digits.
fn decimal(n: usize) -> (r: String)
    ensures
        r@ == decimal_text(n as nat),
    decreases n,
{
    if n < 10 {
        String::from_str(digit(n))
    } else {
        let mut s = decimal(n / 10);
        s.append(digit(n % 10));
        s
    }
}

impl Type {
    /// The type as the program writes it.
    pub open spec fn text(&self) -> Seq<char> {
        match *self {
            Type::Bool => "bool"@,
            Type::Error => "error"@,
            Type::Bit(size) => "bit<"@ + decimal_text(size as nat) + ">"@,
            Type::Varbit(size) => "varbit<"@ + decimal_text(size as nat) + ">"@,
            Type::Int(size) => "int<"@ + decimal_text(size as nat) + ">"@,
            Type::String => "string"@,
            Type::UserDefined(name) => name@,
        }
    }

    /// The type as the program writes it.
    pub fn to_text(&self) -> (r: String)
        ensures
            r@ == self.text(),
    {
        match self {
            Type::Bool => String::from_str("bool"),
            Type::Error => String::from_str("error"),
            Type::Bit(size) => {
                let mut s = String::from_str("bit<");
                s.append(decimal(*size).as_str());
                s.append(">");
                s
            },
            Type::Varbit(size) => {
                let mut s = String::from_str("varbit<");
                s.append(decimal(*size).as_str());
                s.append(">");
                s
            },
            Type::Int(size) => {
                let mut s = String::from_str("int<");
                s.append(decimal(*size).as_str());
                s.append(">");
                s
            },
            Type::String => String::from_str("string"),
            Type::UserDefined(name) => name.clone(),
        }
    }
}

/// A name for a type.
#[derive(Debug, Clone)]
pub struct Typedef {
    pub ty: Type,
    pub name: String,
}

/// A named constant.
#[derive(Debug, Clone)]
pub struct Constant {
    pub ty: Type,
    pub name: String,
    pub initializer: Box<Expression>,
}

/// A local variable.
#[derive(Debug, Clone)]
pub struct Variable {
    pub ty: Type,
    pub name: String,
}

/// An expression.
#[derive(Debug)]
pub enum Expression {
    IntegerLit(i128),
    BitLit(u16, u128),
    SignedLit(u16, i128),
    Lvalue(Lvalue),
    Binary(Box<Expression>, BinOp, Box<Expression>),
}

impl Clone for Expression {
    fn clone(&self) -> (r: Self)
        ensures
            r == *self,
        decreases self,
    {
        match self {
            Expression::IntegerLit(v) => Expression::IntegerLit(*v),
            Expression::BitLit(w, v) => Expression::BitLit(*w, *v),
            Expression::SignedLit(w, v) => Expression::SignedLit(*w, *v),
            Expression::Lvalue(l) => Expression::Lvalue(l.clone()),
            Expression::Binary(a, op, b) => Expression::Binary(
                Box::new((&**a).clone()),
                *op,
                Box::new((&**b).clone()),
            ),
        }
    }
}

/// A binary operator.
#[derive(Debug, Clone, Copy, PartialEq, Eq, Structural)]
pub enum BinOp {
    Add,
    Subtract,
    Geq,
    Eq,
}

/// A header declaration: its fields in the order of the wire.
#[derive(Debug, Clone)]
pub struct Header {
    pub name: String,
    pub members: Vec<HeaderMember>,
}

impl Header {
    pub fn new(name: String) -> (r: Self)
        ensures
            r.name == name,
            r.members@.len() == 0,
    {
        Header { name, members: Vec::new() }
    }
}

/// A field of a header.
#[derive(Debug, Clone)]
pub struct HeaderMember {
    pub ty: Type,
    pub name: String,
}

/// A struct declaration.
#[derive(Debug, Clone)]
pub struct Struct {
    pub name: String,
    pub members: Vec<StructMember>,
}

impl Struct {
    pub fn new(name: String) -> (r: Self)
        ensures
            r.name == name,
            r.members@.len() == 0,
    {
        Struct { name, members: Vec::new() }
    }
}

/// A member of a struct.
#[derive(Debug, Clone)]
pub struct StructMember {
    pub ty: Type,
    pub name: String,
    pub token: Token,
}

/// A control block.
#[derive(Debug, Clone)]
pub struct Control {
    pub name: String,
    pub type_parameters: Vec<String>,
    pub parameters: Vec<ControlParameter>,
    pub actions: Vec<Action>,
    pub tables: Vec<Table>,
    pub apply: StatementBlock,
}

impl Control {
    pub fn new(name: String) -> (r: Self)
        ensures
            r.name == name,
            r.type_parameters@.len() == 0,
            r.parameters@.len() == 0,
            r.actions@.len() == 0,
            r.tables@.len() == 0,
            r.apply.is_empty(),
    {
        Self {
            name,
            type_parameters: Vec::new(),
            parameters: Vec::new(),
            actions: Vec::new(),
            tables: Vec::new(),
            apply: StatementBlock::default(),
        }
    }
}

/// A parser: a state machine over the packet.
#[derive(Debug, Clone)]
pub struct Parser {
    pub name: String,
    pub type_parameters: Vec<String>,
    pub parameters: Vec<ControlParameter>,
    pub states: Vec<State>,
    /// The first token of this parser, used for error reporting.
    pub token: Token,
}

impl Parser {
    pub fn new(name: String, token: Token) -> (r: Self)
        ensures
            r.name == name,
            r.token == token,
            r.type_parameters@.len() == 0,
            r.parameters@.len() == 0,
            r.states@.len() == 0,
    {
        Self {
            name,
            type_parameters: Vec::new(),
            parameters: Vec::new(),
            states: Vec::new(),
            token,
        }
    }
}

/// A parameter of a control or a parser.
#[derive(Debug, Clone)]
pub struct ControlParameter {
    pub direction: Direction,
    pub ty: Type,
    pub name: String,
    /// The tokens of the three parts, used for error reporting.
    pub dir_token: Token,
    pub ty_token: Token,
    pub name_token: Token,
}

/// The direction of a parameter.
#[derive(Debug, Clone, Copy, PartialEq, Eq, Structural)]
pub enum Direction {
    In,
    Out,
    InOut,
    Unspecified,
}

/// A block: what it declares and what it does.
#[derive(Debug, Clone)]
pub struct StatementBlock {
    pub variables: Vec<Variable>,
    pub constants: Vec<Constant>,
    pub statements: Vec<Statement>,
}

impl StatementBlock {
    /// The block declares nothing and does nothing.
    pub open spec fn is_empty(&self) -> bool {
        &&& self.variables@.len() == 0
        &&& self.constants@.len() == 0
        &&& self.statements@.len() == 0
    }
}

impl Default for StatementBlock {
    fn default() -> (r: Self)
        ensures
            r.is_empty(),
    {
        Self { variables: Vec::new(), constants: Vec::new(), statements: Vec::new() }
    }
}

/// An action of a control.
#[derive(Debug, Clone)]
pub struct Action {
    pub name: String,
    pub parameters: Vec<ActionParameter>,
    pub statement_block: StatementBlock,
}

impl Action {
    pub fn new(name: String) -> (r: Self)
        ensures
            r.name == name,
            r.parameters@.len() == 0,
            r.statement_block.is_empty(),
    {
        Self { name, parameters: Vec::new(), statement_block: StatementBlock::default() }
    }
}

/// A parameter of an action.
#[derive(Debug, Clone)]
pub struct ActionParameter {
    pub ty: Type,
    pub name: String,
}

/// A table as the program declares it. The key lists each matched value
/// once, in the order in which they were put in.
#[derive(Debug, Clone)]
pub struct Table {
    pub name: String,
    pub actions: Vec<String>,
    pub default_action: String,
    pub key: Vec<(Lvalue, MatchKind)>,
    pub const_entries: Vec<ConstTableEntry>,
    pub size: usize,
}

impl Table {
    pub fn new(name: String) -> (r: Self)
        ensures
            r.name == name,
            r.actions@.len() == 0,
            r.default_action@.len() == 0,
            r.key@.len() == 0,
            r.const_entries@.len() == 0,
            r.size == 0,
    {
        Self {
            name,
            actions: Vec::new(),
            default_action: String::new(),
            key: Vec::new(),
            const_entries: Vec::new(),
            size: 0,
        }
    }

    /// No value is matched twice.
    pub open spec fn key_wf(&self) -> bool {
        forall|i: int, j: int|
            0 <= i < j < self.key@.len() ==> (#[trigger] self.key@[i]).0.name@ != (
            #[trigger] self.key@[j]).0.name@
    }

    /// Where the key matches the value of that name.
    pub open spec fn key_index(&self, name: Seq<char>, i: int) -> bool {
        0 <= i < self.key@.len() && self.key@[i].0.name@ == name
    }

    /// How the value of that name is matched, if the key has it.
    pub fn key_kind(&self, name: &str) -> (r: Option<MatchKind>)
        ensures
            match r {
                Some(kind) => exists|i: int|
                    #![trigger self.key@[i]]
                    self.key_index(name@, i) && self.key@[i].1 == kind && forall|j: int|
                        0 <= j < i ==> !self.key_index(name@, j),
                None => forall|i: int| !self.key_index(name@, i),
            },
    {
        let wanted = String::from_str(name);
        let mut i: usize = 0;
        while i < self.key.len()
            invariant
                i <= self.key@.len(),
                wanted@ == name@,
                forall|j: int| 0 <= j < i ==> !self.key_index(name@, j),
            decreases self.key@.len() - i,
        {
            if self.key[i].0.name == wanted {
                assert(self.key_index(name@, i as int));
                return Some(self.key[i].1);
            }
            i += 1;
        }
        None
    }

    /// Matches the value in that way: where the key has the value, its
    /// kind is replaced and the old one returned; else the value is
    /// added behind the others.
    pub fn set_key(&mut self, lvalue: Lvalue, kind: MatchKind) -> (r: Option<MatchKind>)
        requires
            old(self).key_wf(),
        ensures
            final(self).key_wf(),
            final(self).name == old(self).name,
            final(self).actions == old(self).actions,
            final(self).default_action == old(self).default_action,
            final(self).const_entries == old(self).const_entries,
            final(self).size == old(self).size,
            match r {
                Some(was) => exists|i: int|
                    #![trigger old(self).key@[i]]
                    old(self).key_index(lvalue.name@, i) && old(self).key@[i].1 == was
                        && final(self).key@ == old(self).key@.update(i, (lvalue, kind)),
                None => (forall|i: int| !old(self).key_index(lvalue.name@, i)) && final(self).key@
                    == old(self).key@.push((lvalue, kind)),
            },
    {
        let mut i: usize = 0;
        while i < self.key.len()
            invariant
                i <= self.key@.len(),
                *self == *old(self),
                old(self).key_wf(),
                forall|j: int| 0 <= j < i ==> !self.key_index(lvalue.name@, j),
            decreases self.key@.len() - i,
        {
            if self.key[i].0.name == lvalue.name {
                let was = self.key[i].1;
                assert(old(self).key_index(lvalue.name@, i as int));
                self.key.set(i, (lvalue, kind));
                proof {
                    assert forall|a: int, b: int| 0 <= a < b < self.key@.len() implies (
                    #[trigger] self.key@[a]).0.name@ != (#[trigger] self.key@[b]).0.name@ by {
                        assert(self.key@[a].0.name@ == old(self).key@[a].0.name@);
                        assert(self.key@[b].0.name@ == old(self).key@[b].0.name@);
                    }
                }
                return Some(was);
            }
            i += 1;
        }
        self.key.push((lvalue, kind));
        proof {
            assert forall|a: int, b: int| 0 <= a < b < self.key@.len() implies (
            #[trigger] self.key@[a]).0.name@ != (#[trigger] self.key@[b]).0.name@ by {
                assert(self.key@[a] == old(self).key@[a]);
                if b < old(self).key@.len() {
                    assert(self.key@[b] == old(self).key@[b]);
                } else {
                    assert(!old(self).key_index(lvalue.name@, a));
                }
            }
        }
        None
    }
}

/// An entry that the program gives a table.
#[derive(Debug, Clone)]
pub struct ConstTableEntry {
    pub keyset: Vec<KeySetElement>,
    pub action: ActionRef,
}

/// One element of a keyset in the program text.
#[derive(Debug, Clone)]
pub enum KeySetElement {
    Expression(Box<Expression>),
    Default,
    DontCare,
    Masked(Box<Expression>, Box<Expression>),
    Ranged(Box<Expression>, Box<Expression>),
}

/// A reference to an action, with its arguments.
#[derive(Debug, Clone)]
pub struct ActionRef {
    pub name: String,
    pub parameters: Vec<Box<Expression>>,
}

impl ActionRef {
    pub fn new(name: String) -> (r: Self)
        ensures
            r.name == name,
            r.parameters@.len() == 0,
    {
        Self { name, parameters: Vec::new() }
    }
}

/// How a table matches one value of its key.
#[derive(Debug, Clone, Copy, PartialEq, Eq, Structural)]
pub enum MatchKind {
    Exact,
    Ternary,
    LongestPrefixMatch,
}

/// A statement.
#[derive(Debug, Clone)]
pub enum Statement {
    Empty,
    Assignment(Lvalue, Box<Expression>),
    Call(Call),
}

/// A function or method call
#[derive(Debug, Clone)]
pub struct Call {
    pub lval: Lvalue,
    pub args: Vec<Box<Expression>>,
}

/// Something that can be assigned to, by name.
#[derive(Debug, Hash, PartialEq, Eq, PartialOrd, Ord)]
pub struct Lvalue {
    pub name: String,
}

impl Clone for Lvalue {
    fn clone(&self) -> (r: Self)
        ensures
            r == *self,
    {
        Lvalue { name: self.name.clone() }
    }
}

/// A state of a parser.
#[derive(Debug, Clone)]
pub struct State {
    pub name: String,
    pub variables: Vec<Variable>,
    pub constants: Vec<Constant>,
    pub statements: Vec<Statement>,
    pub transition: Option<Transition>,
}

impl State {
    pub fn new(name: String) -> (r: Self)
        ensures
            r.name == name,
            r.variables@.len() == 0,
            r.constants@.len() == 0,
            r.statements@.len() == 0,
            r.transition is None,
    {
        Self {
            name,
            variables: Vec::new(),
            constants: Vec::new(),
            statements: Vec::new(),
            transition: None,
        }
    }
}

/// Where a parser state goes next.
#[derive(Debug, Clone)]
pub enum Transition {
    Reference(String),
    Select(Select),
}

/// A transition that picks the next state by value.
#[derive(Debug, Clone)]
pub struct Select {
    pub parameters: Vec<Box<Expression>>,
    pub elements: Vec<SelectElement>,
}

impl Default for Select {
    fn default() -> (r: Self)
        ensures
            r.parameters@.len() == 0,
            r.elements@.len() == 0,
    {
        Self { parameters: Vec::new(), elements: Vec::new() }
    }
}

/// One case of a select.
#[derive(Debug, Clone)]
pub struct SelectElement {
    pub keyset: Vec<KeySetElement>,
    pub name: String,
}

} // verus!
