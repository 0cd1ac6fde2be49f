//! Syntax written out as text, in the notation of the language's own data
//! types: `Binary(Name("x"), Plus, Number(1))`.

use vstd::prelude::*;
use vstd::string::*;
use vstd::utf8::is_ascii_chars;
use crate::ast::{
    Decimal, Definition, DefinitionView, Expr, Op, Prototype, PrototypeView, Syntax,
    definitions_view, exprs_view, names_view,
};

verus! {

/// The character that stands for a digit.
pub open spec fn digit_char(d: nat) -> char {
    if d == 0 {
        '0'
    } else if d == 1 {
        '1'
    } else if d == 2 {
        '2'
    } else if d == 3 {
        '3'
    } else if d == 4 {
        '4'
    } else if d == 5 {
        '5'
    } else if d == 6 {
        '6'
    } else if d == 7 {
        '7'
    } else if d == 8 {
        '8'
    } else {
        '9'
    }
}

/// The decimal digits of a number, without leading zeros.
pub open spec fn nat_digits(n: nat) -> Seq<char>
    decreases n,
{
    if n < 10 {
        seq![digit_char(n)]
    } else {
        nat_digits(n / 10).push(digit_char(n % 10))
    }
}

/// `count` zeros.
pub open spec fn zeros(count: nat) -> Seq<char> {
    Seq::new(count, |i: int| '0')
}

/// A number literal written out: the digits of the mantissa with a point
/// before the last `scale` of them, and zeros in front where the mantissa
/// has too few digits.
pub open spec fn decimal_text(d: Decimal) -> Seq<char> {
    let digits = nat_digits(d.mantissa as nat);
    let scale = d.scale as int;
    if scale == 0 {
        digits
    } else if digits.len() > scale {
        digits.subrange(0, digits.len() - scale) + "."@ + digits.subrange(
            digits.len() - scale,
            digits.len() as int,
        )
    } else {
        "0."@ + zeros((scale - digits.len()) as nat) + digits
    }
}

/// The name of an operator.
pub open spec fn op_text(op: Op) -> Seq<char> {
    match op {
        Op::Plus => "Plus"@,
        Op::Minus => "Minus"@,
        Op::Times => "Times"@,
        Op::Slash => "Slash"@,
        Op::Pipe => "Pipe"@,
        Op::Percent => "Percent"@,
        Op::Greater => "Greater"@,
        Op::Lesser => "Lesser"@,
        Op::Equals => "Equals"@,
        Op::And => "And"@,
        Op::Or => "Or"@,
    }
}

/// A string between double quotes, as it stands.
pub open spec fn quoted(s: Seq<char>) -> Seq<char> {
    "\""@ + s + "\""@
}

/// The texts in `items` with `, ` between them.
pub open spec fn joined(items: Seq<Seq<char>>) -> Seq<char>
    decreases items.len(),
{
    if items.len() == 0 {
        Seq::empty()
    } else if items.len() == 1 {
        items[0]
    } else {
        joined(items.drop_last()) + ", "@ + items.last()
    }
}

/// A list: its items between square brackets.
pub open spec fn listed(items: Seq<Seq<char>>) -> Seq<char> {
    "["@ + joined(items) + "]"@
}

/// The names in `names`, each between double quotes.
pub open spec fn quoted_all(names: Seq<Seq<char>>) -> Seq<Seq<char>> {
    Seq::new(names.len(), |i: int| quoted(names[i]))
}

/// An expression written out.
pub open spec fn syntax_text(e: Syntax) -> Seq<char>
    decreases e,
{
    match e {
        Syntax::Binary(l, op, r) => "Binary("@ + syntax_text(*l) + ", "@ + op_text(op) + ", "@
            + syntax_text(*r) + ")"@,
        Syntax::Number(d) => "Number("@ + decimal_text(d) + ")"@,
        Syntax::Name(s) => "Name("@ + quoted(s) + ")"@,
        Syntax::Call(f, args) => "Call("@ + syntax_text(*f) + ", "@ + listed(syntax_texts(args)) + ")"@,
        Syntax::Lambda(params, body) => "Lambda("@ + listed(quoted_all(params)) + ", "@ + syntax_text(
            *body,
        ) + ")"@,
        Syntax::Pull => "Pull"@,
        Syntax::FinishedPipe => "FinishedPipe"@,
        Syntax::Block(items) => "Block("@ + listed(syntax_texts(items)) + ")"@,
        Syntax::If(c, t, o) => "If("@ + syntax_text(*c) + ", "@ + syntax_text(*t) + ", "@ + syntax_text(
            *o,
        ) + ")"@,
        Syntax::While(c, b) => "While("@ + syntax_text(*c) + ", "@ + syntax_text(*b) + ")"@,
        Syntax::Assignment(name, value) => "Assignment("@ + quoted(name) + ", "@ + syntax_text(*value)
            + ")"@,
        Syntax::Push(value) => "Push("@ + syntax_text(*value) + ")"@,
        Syntax::Bool(b) => if b {
            "Bool(true)"@
        } else {
            "Bool(false)"@
        },
        Syntax::Return(value) => "Return("@ + syntax_text(*value) + ")"@,
    }
}

/// The expressions in `items`, each written out.
pub open spec fn syntax_texts(items: Seq<Syntax>) -> Seq<Seq<char>>
    decreases items,
{
    Seq::new(
        items.len(),
        |i: int|
            if 0 <= i < items.len() {
                syntax_text(items[i])
            } else {
                Seq::empty()
            },
    )
}

/// A prototype written out.
pub open spec fn prototype_text(p: PrototypeView) -> Seq<char> {
    "Prototype { name: "@ + quoted(p.name) + ", args: "@ + listed(quoted_all(p.args)) + " }"@
}

/// A definition written out.
pub open spec fn definition_text(d: DefinitionView) -> Seq<char> {
    "Definition { prototype: "@ + prototype_text(d.prototype) + ", body: "@ + syntax_text(d.body)
        + " }"@
}

/// A program written out: the list of its definitions.
pub open spec fn program_text(ds: Seq<DefinitionView>) -> Seq<char> {
    listed(Seq::new(ds.len(), |i: int| definition_text(ds[i])))
}

/// The text of a digit.
fn digit_str(d: u64) -> (r: &'static str)
    requires
        d < 10,
    ensures
        r@ == seq![digit_char(d as nat)],
{
    proof {
        reveal_strlit("0");
        reveal_strlit("1");
        reveal_strlit("2");
        reveal_strlit("3");
        reveal_strlit("4");
        reveal_strlit("5");
        reveal_strlit("6");
        reveal_strlit("7");
        reveal_strlit("8");
        reveal_strlit("9");
    }
    let r = if d == 0 {
        "0"
    } else if d == 1 {
        "1"
    } else if d == 2 {
        "2"
    } else if d == 3 {
        "3"
    } else if d == 4 {
        "4"
    } else if d == 5 {
        "5"
    } else if d == 6 {
        "6"
    } else if d == 7 {
        "7"
    } else if d == 8 {
        "8"
    } else {
        "9"
    };
    proof {
        assert(r@ =~= seq![digit_char(d as nat)]);
    }
    r
}

/// The decimal digits of a number.
fn digits_of(n: u64) -> (r: String)
    ensures
        r@ == nat_digits(n as nat),
        is_ascii_chars(r@),
        r@.len() >= 1,
    decreases n,
{
    if n < 10 {
        String::from_str(digit_str(n))
    } else {
        let mut r = digits_of(n / 10);
        r.append(digit_str(n % 10));
        proof {
            assert(r@ =~= nat_digits((n / 10) as nat).push(digit_char((n % 10) as nat)));
        }
        r
    }
}

/// Writes out a number literal.
pub fn decimal_to_string(d: Decimal) -> (r: String)
    ensures
        r@ == decimal_text(d),
{
    let digits = digits_of(d.mantissa);
    let len = digits.as_str().unicode_len();
    let scale = d.scale as usize;
    if scale == 0 {
        digits
    } else if len > scale {
        let mut r = String::from_str(digits.as_str().substring_ascii(0, len - scale));
        r.append(".");
        r.append(digits.as_str().substring_ascii(len - scale, len));
        r
    } else {
        let mut r = String::from_str("0.");
        let mut i: usize = 0;
        proof {
            assert(r@ =~= "0."@ + zeros(0));
        }
        while i < scale - len
            invariant
                len <= scale,
                i <= scale - len,
                r@ == "0."@ + zeros(i as nat),
            decreases scale - len - i,
        {
            r.append("0");
            proof {
                reveal_strlit("0");
                assert(r@ =~= "0."@ + zeros((i + 1) as nat));
            }
            i = i + 1;
        }
        r.append(digits.as_str());
        r
    }
}

/// The name of an operator.
pub fn op_to_str(op: Op) -> (r: &'static str)
    ensures
        r@ == op_text(op),
{
    match op {
        Op::Plus => "Plus",
        Op::Minus => "Minus",
        Op::Times => "Times",
        Op::Slash => "Slash",
        Op::Pipe => "Pipe",
        Op::Percent => "Percent",
        Op::Greater => "Greater",
        Op::Lesser => "Lesser",
        Op::Equals => "Equals",
        Op::And => "And",
        Op::Or => "Or",
    }
}

/// Writes `s` between double quotes.
fn quote(s: &str) -> (r: String)
    ensures
        r@ == quoted(s@),
{
    let mut r = String::from_str("\"");
    r.append(s);
    r.append("\"");
    r
}

/// Puts one more item behind the items that `out` holds already.
fn join_next(out: &mut String, item: &str, Ghost(all): Ghost<Seq<Seq<char>>>, i: usize)
    requires
        i < all.len(),
        all[i as int] == item@,
        old(out)@ == joined(all.subrange(0, i as int)),
    ensures
        final(out)@ == joined(all.subrange(0, i + 1)),
{
    let ghost upto = all.subrange(0, i + 1);
    proof {
        assert(upto.drop_last() =~= all.subrange(0, i as int));
        assert(upto.last() == item@);
    }
    if i > 0 {
        out.append(", ");
        out.append(item);
    } else {
        out.append(item);
        proof {
            assert(all.subrange(0, 0) =~= Seq::<Seq<char>>::empty());
            assert(out@ =~= item@);
        }
    }
}

/// Puts a list that was joined between square brackets.
fn bracket(inner: String) -> (r: String)
    ensures
        r@ == "["@ + inner@ + "]"@,
{
    let mut r = String::from_str("[");
    r.append(inner.as_str());
    r.append("]");
    r
}

/// Writes out the list of the names in `names`, each between double quotes.
fn names_to_string(names: &Vec<String>) -> (r: String)
    ensures
        r@ == listed(quoted_all(names_view(names@))),
{
    let ghost all = quoted_all(names_view(names@));
    let mut inner = String::new();
    let mut i: usize = 0;
    proof {
        assert(all.subrange(0, 0) =~= Seq::<Seq<char>>::empty());
    }
    while i < names.len()
        invariant
            i <= names@.len(),
            all == quoted_all(names_view(names@)),
            inner@ == joined(all.subrange(0, i as int)),
        decreases names@.len() - i,
    {
        let item = quote(names[i].as_str());
        join_next(&mut inner, item.as_str(), Ghost(all), i);
        i = i + 1;
    }
    proof {
        assert(all.subrange(0, names@.len() as int) =~= all);
    }
    bracket(inner)
}

/// Writes out the list of the expressions in `items`.
fn exprs_to_string(items: &Vec<Box<Expr>>) -> (r: String)
    ensures
        r@ == listed(syntax_texts(exprs_view(items@))),
    decreases items,
{
    let ghost all = syntax_texts(exprs_view(items@));
    let mut inner = String::new();
    let mut i: usize = 0;
    proof {
        assert(all.subrange(0, 0) =~= Seq::<Seq<char>>::empty());
    }
    while i < items.len()
        invariant
            i <= items@.len(),
            all == syntax_texts(exprs_view(items@)),
            inner@ == joined(all.subrange(0, i as int)),
        decreases items@.len() - i,
    {
        let item = expr_to_string(&items[i]);
        join_next(&mut inner, item.as_str(), Ghost(all), i);
        i = i + 1;
    }
    proof {
        assert(all.subrange(0, items@.len() as int) =~= all);
    }
    bracket(inner)
}

/// Writes out an expression.
pub fn expr_to_string(e: &Expr) -> (r: String)
    ensures
        r@ == syntax_text(e.syntax()),
    decreases e,
{
    match e {
        Expr::Binary(l, op, r) => {
            let mut out = String::from_str("Binary(");
            out.append(expr_to_string(l).as_str());
            out.append(", ");
            out.append(op_to_str(*op));
            out.append(", ");
            out.append(expr_to_string(r).as_str());
            out.append(")");
            out
        },
        Expr::Number(d) => {
            let mut out = String::from_str("Number(");
            out.append(decimal_to_string(*d).as_str());
            out.append(")");
            out
        },
        Expr::Name(s) => {
            let mut out = String::from_str("Name(");
            out.append(quote(s.as_str()).as_str());
            out.append(")");
            out
        },
        Expr::Call(f, args) => {
            let mut out = String::from_str("Call(");
            out.append(expr_to_string(f).as_str());
            out.append(", ");
            out.append(exprs_to_string(args).as_str());
            out.append(")");
            out
        },
        Expr::Lambda(params, body) => {
            let mut out = String::from_str("Lambda(");
            out.append(names_to_string(params).as_str());
            out.append(", ");
            out.append(expr_to_string(body).as_str());
            out.append(")");
            out
        },
        Expr::Pull => String::from_str("Pull"),
        Expr::FinishedPipe => String::from_str("FinishedPipe"),
        Expr::Block(items) => {
            let mut out = String::from_str("Block(");
            out.append(exprs_to_string(items).as_str());
            out.append(")");
            out
        },
        Expr::If(c, t, o) => {
            let mut out = String::from_str("If(");
            out.append(expr_to_string(c).as_str());
            out.append(", ");
            out.append(expr_to_string(t).as_str());
            out.append(", ");
            out.append(expr_to_string(o).as_str());
            out.append(")");
            out
        },
        Expr::While(c, b) => {
            let mut out = String::from_str("While(");
            out.append(expr_to_string(c).as_str());
            out.append(", ");
            out.append(expr_to_string(b).as_str());
            out.append(")");
            out
        },
        Expr::Assignment(name, value) => {
            let mut out = String::from_str("Assignment(");
            out.append(quote(name.as_str()).as_str());
            out.append(", ");
            out.append(expr_to_string(value).as_str());
            out.append(")");
            out
        },
        Expr::Push(value) => {
            let mut out = String::from_str("Push(");
            out.append(expr_to_string(value).as_str());
            out.append(")");
            out
        },
        Expr::Bool(b) => {
            if *b {
                String::from_str("Bool(true)")
            } else {
                String::from_str("Bool(false)")
            }
        },
        Expr::Return(value) => {
            let mut out = String::from_str("Return(");
            out.append(expr_to_string(value).as_str());
            out.append(")");
            out
        },
    }
}

/// Writes out a prototype.
pub fn prototype_to_string(p: &Prototype) -> (r: String)
    ensures
        r@ == prototype_text(p@),
{
    let mut out = String::from_str("Prototype { name: ");
    out.append(quote(p.name.as_str()).as_str());
    out.append(", args: ");
    out.append(names_to_string(&p.args).as_str());
    out.append(" }");
    out
}

/// Writes out a definition.
pub fn definition_to_string(d: &Definition) -> (r: String)
    ensures
        r@ == definition_text(d@),
{
    let mut out = String::from_str("Definition { prototype: ");
    out.append(prototype_to_string(&d.prototype).as_str());
    out.append(", body: ");
    out.append(expr_to_string(&d.body).as_str());
    out.append(" }");
    out
}

/// Writes out a program.
pub fn program_to_string(ds: &Vec<Definition>) -> (r: String)
    ensures
        r@ == program_text(definitions_view(ds@)),
{
    let ghost all = Seq::new(ds@.len(), |i: int| definition_text(definitions_view(ds@)[i]));
    let mut inner = String::new();
    let mut i: usize = 0;
    proof {
        assert(all.subrange(0, 0) =~= Seq::<Seq<char>>::empty());
    }
    while i < ds.len()
        invariant
            i <= ds@.len(),
            all == Seq::new(ds@.len(), |i: int| definition_text(definitions_view(ds@)[i])),
            inner@ == joined(all.subrange(0, i as int)),
        decreases ds@.len() - i,
    {
        let item = definition_to_string(&ds[i]);
        join_next(&mut inner, item.as_str(), Ghost(all), i);
        i = i + 1;
    }
    proof {
        assert(all.subrange(0, ds@.len() as int) =~= all);
    }
    bracket(inner)
}

} // verus!
