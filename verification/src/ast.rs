//! The abstract syntax of the expression language.
//!
//! Every syntax type has a view that holds sequences where the type itself
//! holds strings and vectors; the parser is specified over those views.

use vstd::prelude::*;

verus! {

/// A number literal: `mantissa` divided by ten to the power of `scale`.
///
/// A literal is kept in the one form in which the mantissa does not end in a
/// zero that the scale could take up, so `1.0` and `1` are the same value.
#[derive(Debug, Clone, Copy, PartialEq, Eq, Structural)]
pub struct Decimal {
    pub mantissa: u64,
    pub scale: u8,
}

impl Decimal {
    /// No trailing zero of the fraction is kept.
    pub open spec fn is_normal(self) -> bool {
        self.scale == 0 || self.mantissa % 10 != 0
    }

    /// The whole number `n`.
    pub fn whole(n: u64) -> (d: Decimal)
        ensures
            d == (Decimal { mantissa: n, scale: 0 }),
            d.is_normal(),
    {
        Decimal { mantissa: n, scale: 0 }
    }

    /// The number `mantissa / 10^scale` with the trailing zeros of its
    /// fraction dropped.
    pub fn new(mantissa: u64, scale: u8) -> (d: Decimal)
        ensures
            d == normalized(mantissa, scale),
            d.is_normal(),
    {
        let mut m: u64 = mantissa;
        let mut s: u8 = scale;
        while s > 0 && m % 10 == 0
            invariant
                normalized(m, s) == normalized(mantissa, scale),
            decreases s,
        {
            m = m / 10;
            s = s - 1;
        }
        Decimal { mantissa: m, scale: s }
    }
}

/// The form of `mantissa / 10^scale` that keeps no trailing zero of the
/// fraction.
pub open spec fn normalized(mantissa: u64, scale: u8) -> Decimal
    decreases scale,
{
    if scale > 0 && mantissa % 10 == 0 {
        normalized(mantissa / 10, (scale - 1) as u8)
    } else {
        Decimal { mantissa: mantissa, scale: scale }
    }
}

/// A binary operator.
#[derive(Debug, Clone, Copy, PartialEq, Eq, Structural)]
pub enum Op {
    Plus,
    Minus,
    Times,
    Slash,
    Pipe,
    Percent,
    Greater,
    Lesser,
    Equals,
    And,
    Or,
}

/// An expression.
#[derive(Debug, PartialEq)]
pub enum Expr {
    Binary(Box<Expr>, Op, Box<Expr>),
    Number(Decimal),
    Name(String),
    Call(Box<Expr>, Vec<Box<Expr>>),
    Lambda(Vec<String>, Box<Expr>),
    Pull,
    FinishedPipe,
    Block(Vec<Box<Expr>>),
    If(Box<Expr>, Box<Expr>, Box<Expr>),
    While(Box<Expr>, Box<Expr>),
    Assignment(String, Box<Expr>),
    Push(Box<Expr>),
    Bool(bool),
    Return(Box<Expr>),
}

/// An expression as a mathematical value.
pub enum Syntax {
    Binary(Box<Syntax>, Op, Box<Syntax>),
    Number(Decimal),
    Name(Seq<char>),
    Call(Box<Syntax>, Seq<Syntax>),
    Lambda(Seq<Seq<char>>, Box<Syntax>),
    Pull,
    FinishedPipe,
    Block(Seq<Syntax>),
    If(Box<Syntax>, Box<Syntax>, Box<Syntax>),
    While(Box<Syntax>, Box<Syntax>),
    Assignment(Seq<char>, Box<Syntax>),
    Push(Box<Syntax>),
    Bool(bool),
    Return(Box<Syntax>),
}

/// The names in `names` as sequences of characters.
pub open spec fn names_view(names: Seq<String>) -> Seq<Seq<char>> {
    Seq::new(names.len(), |i: int| names[i]@)
}

/// The expressions in `exprs` as mathematical values.
pub open spec fn exprs_view(exprs: Seq<Box<Expr>>) -> Seq<Syntax>
    decreases exprs,
{
    Seq::new(
        exprs.len(),
        |i: int|
            if 0 <= i < exprs.len() {
                (*exprs[i]).syntax()
            } else {
                Syntax::Pull
            },
    )
}

impl Expr {
    /// The expression as a mathematical value.
    pub open spec fn syntax(self) -> Syntax
        decreases self,
    {
        match self {
            Expr::Binary(l, op, r) => Syntax::Binary(Box::new((*l).syntax()), op, Box::new((*r).syntax())),
            Expr::Number(n) => Syntax::Number(n),
            Expr::Name(s) => Syntax::Name(s@),
            Expr::Call(f, args) => Syntax::Call(Box::new((*f).syntax()), exprs_view(args@)),
            Expr::Lambda(params, body) => Syntax::Lambda(names_view(params@), Box::new((*body).syntax())),
            Expr::Pull => Syntax::Pull,
            Expr::FinishedPipe => Syntax::FinishedPipe,
            Expr::Block(items) => Syntax::Block(exprs_view(items@)),
            Expr::If(c, t, e) => Syntax::If(
                Box::new((*c).syntax()),
                Box::new((*t).syntax()),
                Box::new((*e).syntax()),
            ),
            Expr::While(c, b) => Syntax::While(Box::new((*c).syntax()), Box::new((*b).syntax())),
            Expr::Assignment(name, value) => Syntax::Assignment(name@, Box::new((*value).syntax())),
            Expr::Push(value) => Syntax::Push(Box::new((*value).syntax())),
            Expr::Bool(b) => Syntax::Bool(b),
            Expr::Return(value) => Syntax::Return(Box::new((*value).syntax())),
        }
    }
}

impl View for Expr {
    type V = Syntax;

    open spec fn view(&self) -> Syntax {
        self.syntax()
    }
}

/// The head of a function definition: its name and its parameter names.
#[derive(Debug, PartialEq)]
pub struct Prototype {
    pub name: String,
    pub args: Vec<String>,
}

/// The head of a definition as a mathematical value.
pub struct PrototypeView {
    pub name: Seq<char>,
    pub args: Seq<Seq<char>>,
}

impl View for Prototype {
    type V = PrototypeView;

    open spec fn view(&self) -> PrototypeView {
        PrototypeView { name: self.name@, args: names_view(self.args@) }
    }
}

impl Prototype {
    pub fn new(name: String, args: Vec<String>) -> (p: Prototype)
        ensures
            p.name == name,
            p.args == args,
    {
        Prototype { name: name, args: args }
    }
}

/// A function definition: a prototype and the expression that is its body.
#[derive(Debug, PartialEq)]
pub struct Definition {
    pub prototype: Prototype,
    pub body: Box<Expr>,
}

/// A definition as a mathematical value.
pub struct DefinitionView {
    pub prototype: PrototypeView,
    pub body: Syntax,
}

impl View for Definition {
    type V = DefinitionView;

    open spec fn view(&self) -> DefinitionView {
        DefinitionView { prototype: self.prototype@, body: (*self.body).syntax() }
    }
}

impl Definition {
    pub fn new(prototype: Prototype, body: Box<Expr>) -> (d: Definition)
        ensures
            d.prototype == prototype,
            d.body == body,
    {
        Definition { prototype: prototype, body: body }
    }
}

/// The definitions in `defs` as mathematical values.
pub open spec fn definitions_view(defs: Seq<Definition>) -> Seq<DefinitionView> {
    Seq::new(defs.len(), |i: int| defs[i]@)
}

/// Copies a list of names.
fn copy_names(names: &Vec<String>) -> (r: Vec<String>)
    ensures
        names_view(r@) == names_view(names@),
{
    let mut out: Vec<String> = Vec::new();
    let mut i: usize = 0;
    while i < names.len()
        invariant
            i <= names@.len(),
            out@.len() == i,
            forall|j: int| 0 <= j < i ==> out@[j]@ == names@[j]@,
        decreases names@.len() - i,
    {
        out.push(names[i].clone());
        i = i + 1;
    }
    proof {
        assert(names_view(out@) =~= names_view(names@));
    }
    out
}

/// Copies a list of expressions.
fn copy_exprs(items: &Vec<Box<Expr>>) -> (r: Vec<Box<Expr>>)
    ensures
        exprs_view(r@) == exprs_view(items@),
    decreases items,
{
    let mut out: Vec<Box<Expr>> = Vec::new();
    let mut i: usize = 0;
    while i < items.len()
        invariant
            i <= items@.len(),
            out@.len() == i,
            forall|j: int| 0 <= j < i ==> (*out@[j]).syntax() == (*items@[j]).syntax(),
        decreases items@.len() - i,
    {
        out.push(Box::new(items[i].duplicate()));
        i = i + 1;
    }
    proof {
        assert(exprs_view(out@) =~= exprs_view(items@));
    }
    out
}

impl Expr {
    /// A copy of the expression.
    pub fn duplicate(&self) -> (r: Expr)
        ensures
            r.syntax() == self.syntax(),
        decreases self,
    {
        let r = match self {
            Expr::Binary(l, op, r) => Expr::Binary(Box::new(l.duplicate()), *op, Box::new(r.duplicate())),
            Expr::Number(n) => Expr::Number(*n),
            Expr::Name(s) => Expr::Name(s.clone()),
            Expr::Call(f, args) => Expr::Call(Box::new(f.duplicate()), copy_exprs(args)),
            Expr::Lambda(params, body) => Expr::Lambda(copy_names(params), Box::new(body.duplicate())),
            Expr::Pull => Expr::Pull,
            Expr::FinishedPipe => Expr::FinishedPipe,
            Expr::Block(items) => Expr::Block(copy_exprs(items)),
            Expr::If(c, t, e) => Expr::If(
                Box::new(c.duplicate()),
                Box::new(t.duplicate()),
                Box::new(e.duplicate()),
            ),
            Expr::While(c, b) => Expr::While(Box::new(c.duplicate()), Box::new(b.duplicate())),
            Expr::Assignment(name, value) => Expr::Assignment(name.clone(), Box::new(value.duplicate())),
            Expr::Push(value) => Expr::Push(Box::new(value.duplicate())),
            Expr::Bool(b) => Expr::Bool(*b),
            Expr::Return(value) => Expr::Return(Box::new(value.duplicate())),
        };
        r
    }
}

impl Clone for Expr {
    fn clone(&self) -> (r: Expr)
        ensures
            r.syntax() == self.syntax(),
    {
        self.duplicate()
    }
}

impl Clone for Prototype {
    fn clone(&self) -> (r: Prototype)
        ensures
            r@ == self@,
    {
        Prototype { name: self.name.clone(), args: copy_names(&self.args) }
    }
}

impl Definition {
    /// A copy of the definition.
    pub fn duplicate(&self) -> (r: Definition)
        ensures
            r@ == self@,
    {
        Definition { prototype: self.prototype.clone(), body: Box::new(self.body.duplicate()) }
    }
}

impl Clone for Definition {
    fn clone(&self) -> (r: Definition)
        ensures
            r@ == self@,
    {
        self.duplicate()
    }
}

} // verus!
