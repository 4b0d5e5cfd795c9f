//! A visitor that renders an expression tree as a parenthesized string,
//! for debug output.

use vstd::prelude::*;
use vstd::string::StringExecFns;

use crate::expr::{Bin, ExprType, Grp, Lit, Unr, Visitor};
use crate::token::lossy_of;
use crate::token::render_bytes;

verus! {

/// What the printer renders for one expression: a literal's text (`nil`
/// when it is empty), or the node's name parenthesized with its rendered
/// children.
pub open spec fn render_spec(e: ExprType) -> Seq<char>
    decreases e,
{
    match e {
        ExprType::Binary(b) => "("@ + lossy_of(b.operator.lexeme@) + " "@ + render_spec(*b.left)
            + " "@ + render_spec(*b.right) + ")"@,
        ExprType::Grouping(g) => "("@ + "group"@ + " "@ + render_spec(*g.expr) + ")"@,
        ExprType::Literal(l) => if l.value@.len() == 0 {
            "nil"@
        } else {
            l.value@
        },
        ExprType::Unary(u) => "("@ + lossy_of(u.operator.lexeme@) + " "@ + render_spec(*u.right)
            + ")"@,
    }
}

/// The children of a parenthesized node, each rendered after one space.
pub open spec fn rendered_items(items: Seq<ExprType>) -> Seq<char>
    decreases items.len(),
{
    if items.len() == 0 {
        Seq::empty()
    } else {
        rendered_items(items.drop_last()) + " "@ + render_spec(items.last())
    }
}

/// A node's name parenthesized with its rendered children.
pub open spec fn paren_spec(name: Seq<char>, items: Seq<ExprType>) -> Seq<char> {
    "("@ + name + rendered_items(items) + ")"@
}

/// Render one expression tree.
fn render(e: &ExprType) -> (r: String)
    ensures
        r@ == render_spec(*e),
    decreases *e,
{
    match e {
        ExprType::Binary(b) => {
            let mut s = String::from_str("(");
            let op = render_bytes(&b.operator.lexeme);
            s.append(op.as_str());
            s.append(" ");
            let left = render(&*b.left);
            s.append(left.as_str());
            s.append(" ");
            let right = render(&*b.right);
            s.append(right.as_str());
            s.append(")");
            s
        },
        ExprType::Grouping(g) => {
            let mut s = String::from_str("(");
            s.append("group");
            s.append(" ");
            let inner = render(&*g.expr);
            s.append(inner.as_str());
            s.append(")");
            s
        },
        ExprType::Literal(l) => {
            if l.value.as_str().is_empty() {
                String::from_str("nil")
            } else {
                l.value.clone()
            }
        },
        ExprType::Unary(u) => {
            let mut s = String::from_str("(");
            let op = render_bytes(&u.operator.lexeme);
            s.append(op.as_str());
            s.append(" ");
            let right = render(&*u.right);
            s.append(right.as_str());
            s.append(")");
            s
        },
    }
}

/// The expressions a slice of references points at.
pub open spec fn slice_items(es: Seq<&ExprType>) -> Seq<ExprType> {
    es.map_values(|e: &ExprType| *e)
}

/// The tree-printing visitor.
pub struct AstPrinter {}

impl Visitor<String> for AstPrinter {
    fn visit_binary(&mut self, bin: &Bin) -> (r: String)
        ensures
            r@ == render_spec(ExprType::Binary(*bin)),
    {
        let op = render_bytes(&bin.operator.lexeme);
        let children: [&ExprType; 2] = [&*bin.left, &*bin.right];
        let s = self.parenthesize(op.as_str(), &children);
        proof {
            let items = slice_items(children@);
            assert(items =~= seq![*bin.left, *bin.right]);
            assert(items.drop_last() =~= seq![*bin.left]);
            assert(seq![*bin.left].drop_last() =~= Seq::<ExprType>::empty());
            assert(rendered_items(Seq::<ExprType>::empty()) == Seq::<char>::empty());
            assert(rendered_items(seq![*bin.left]) =~= " "@ + render_spec(*bin.left));
            assert(rendered_items(items) =~= " "@ + render_spec(*bin.left) + " "@ + render_spec(
                *bin.right,
            ));
            assert(s@ =~= render_spec(ExprType::Binary(*bin)));
        }
        s
    }

    fn visit_grouping(&mut self, grp: &Grp) -> (r: String)
        ensures
            r@ == render_spec(ExprType::Grouping(*grp)),
    {
        let children: [&ExprType; 1] = [&*grp.expr];
        let s = self.parenthesize("group", &children);
        proof {
            let items = slice_items(children@);
            assert(items =~= seq![*grp.expr]);
            assert(items.drop_last() =~= Seq::<ExprType>::empty());
            assert(rendered_items(Seq::<ExprType>::empty()) == Seq::<char>::empty());
            assert(rendered_items(items) =~= " "@ + render_spec(*grp.expr));
            assert(s@ =~= render_spec(ExprType::Grouping(*grp)));
        }
        s
    }

    fn visit_literal(&mut self, lit: &Lit) -> (r: String)
        ensures
            r@ == render_spec(ExprType::Literal(*lit)),
    {
        if lit.value.as_str().is_empty() {
            String::from_str("nil")
        } else {
            lit.value.clone()
        }
    }

    fn visit_unary(&mut self, unr: &Unr) -> (r: String)
        ensures
            r@ == render_spec(ExprType::Unary(*unr)),
    {
        let op = render_bytes(&unr.operator.lexeme);
        let children: [&ExprType; 1] = [&*unr.right];
        let s = self.parenthesize(op.as_str(), &children);
        proof {
            let items = slice_items(children@);
            assert(items =~= seq![*unr.right]);
            assert(items.drop_last() =~= Seq::<ExprType>::empty());
            assert(rendered_items(Seq::<ExprType>::empty()) == Seq::<char>::empty());
            assert(rendered_items(items) =~= " "@ + render_spec(*unr.right));
            assert(s@ =~= render_spec(ExprType::Unary(*unr)));
        }
        s
    }
}

impl AstPrinter {
    /// Render `name` parenthesized with every expression of `exprs`
    /// rendered after one space.
    fn parenthesize(&mut self, name: &str, exprs: &[&ExprType]) -> (r: String)
        ensures
            r@ == paren_spec(name@, slice_items(exprs@)),
    {
        let ghost items = slice_items(exprs@);
        let mut s = String::from_str("(");
        s.append(name);
        let mut i: usize = 0;
        while i < exprs.len()
            invariant
                i <= exprs@.len(),
                items == slice_items(exprs@),
                s@ == "("@ + name@ + rendered_items(items.take(i as int)),
            decreases exprs@.len() - i,
        {
            s.append(" ");
            let sub = render(exprs[i]);
            s.append(sub.as_str());
            i = i + 1;
            proof {
                assert(items.take(i as int).drop_last() =~= items.take(i as int - 1));
                assert(items.take(i as int).last() == items[i as int - 1]);
                assert(s@ =~= "("@ + name@ + rendered_items(items.take(i as int)));
            }
        }
        proof {
            assert(items.take(items.len() as int) =~= items);
        }
        s.append(")");
        s
    }
    /// Render the whole tree: the string the spec-level renderer gives.
    pub fn print(&mut self, expr: ExprType) -> (r: String)
        ensures
            r@ == render_spec(expr),
    {
        render(&expr)
    }
}

} // verus!
