use vstd::prelude::*;
use crate::expr::Expr;
use crate::token::{literal_value_text, literal_view, LiteralView};

verus! {

/// `" p"` for each part `p`, joined in order.
pub open spec fn spaced(parts: Seq<Seq<char>>) -> Seq<char>
    decreases parts.len(),
{
    if parts.len() == 0 {
        Seq::empty()
    } else {
        spaced(parts.drop_last()) + seq![' '] + parts.last()
    }
}

/// `"(name p1 p2 ... )"`: a name and its parts in prefix form.
pub open spec fn paren_text(name: Seq<char>, parts: Seq<Seq<char>>) -> Seq<char> {
    seq!['('] + name + spaced(parts) + seq![' ', ')']
}

/// The text of a literal value; `nil` where there is none.
pub open spec fn literal_text(value: Option<LiteralView>) -> Seq<char> {
    match value {
        Some(l) => literal_value_text(l),
        None => seq!['n', 'i', 'l'],
    }
}

/// The prefix form of an expression, every operator before its operands.
pub open spec fn expr_text(e: Expr) -> Seq<char>
    decreases e,
{
    match e {
        Expr::Binary { left, operator, right } => paren_text(
            operator.lexeme@,
            seq![expr_text(*left), expr_text(*right)],
        ),
        Expr::Grouping { expression } => paren_text(
            seq!['g', 'r', 'o', 'u', 'p'],
            seq![expr_text(*expression)],
        ),
        Expr::Literal { value } => literal_text(literal_view(value)),
        Expr::Unary { operator, right } => paren_text(operator.lexeme@, seq![expr_text(*right)]),
    }
}

/// Renders expression trees in prefix form.
pub struct AstPrinter {}

impl AstPrinter {
    pub fn new() -> (r: Self)
        ensures
            r == (AstPrinter {}),
    {
        AstPrinter {  }
    }

    /// The prefix form of `expr`.
    pub fn print(&self, expr: &Expr) -> (r: String)
        ensures
            r@ == expr_text(*expr),
        decreases expr,
    {
        match expr {
            Expr::Binary { left, operator, right } => {
                let mut parts: Vec<String> = Vec::new();
                parts.push(self.print(left));
                parts.push(self.print(right));
                proof {
                    assert(parts@.map_values(|p: String| p@) =~= seq![
                        expr_text(**left),
                        expr_text(**right),
                    ]);
                }
                self.parenthesize(operator.lexeme.as_str(), &parts)
            },
            Expr::Grouping { expression } => {
                let mut parts: Vec<String> = Vec::new();
                parts.push(self.print(expression));
                proof {
                    reveal_strlit("group");
                    assert(parts@.map_values(|p: String| p@) =~= seq![expr_text(**expression)]);
                }
                self.parenthesize("group", &parts)
            },
            Expr::Literal { value } => match value {
                Some(literal) => literal.to_string(),
                None => {
                    proof {
                        reveal_strlit("nil");
                    }
                    String::from_str("nil")
                },
            },
            Expr::Unary { operator, right } => {
                let mut parts: Vec<String> = Vec::new();
                parts.push(self.print(right));
                proof {
                    assert(parts@.map_values(|p: String| p@) =~= seq![expr_text(**right)]);
                }
                self.parenthesize(operator.lexeme.as_str(), &parts)
            },
        }
    }

    /// `name` and the already printed `parts` in one parenthesized group.
    fn parenthesize(&self, name: &str, parts: &Vec<String>) -> (r: String)
        ensures
            r@ == paren_text(name@, parts@.map_values(|p: String| p@)),
    {
        proof {
            reveal_strlit("(");
            reveal_strlit(" )");
        }
        let mut res = String::from_str("(");
        res.append(name);
        let mut i: usize = 0;
        while i < parts.len()
            invariant
                i <= parts.len(),
                res@ == seq!['('] + name@ + spaced(
                    parts@.subrange(0, i as int).map_values(|p: String| p@),
                ),
            decreases parts.len() - i,
        {
            let ghost before = res@;
            proof {
                reveal_strlit(" ");
            }
            res.append(" ");
            res.append(parts[i].as_str());
            proof {
                let done = parts@.subrange(0, i as int + 1).map_values(|p: String| p@);
                assert(done.drop_last() =~= parts@.subrange(0, i as int).map_values(
                    |p: String| p@,
                ));
                assert(done.last() == parts@[i as int]@);
                assert(res@ =~= before + seq![' '] + parts@[i as int]@);
                assert(res@ =~= seq!['('] + name@ + spaced(done));
            }
            i += 1;
        }
        res.append(" )");
        proof {
            assert(parts@.subrange(0, i as int) =~= parts@);
            assert(seq!['('] + name@ + spaced(parts@.map_values(|p: String| p@)) + seq![' ', ')']
                =~= paren_text(name@, parts@.map_values(|p: String| p@)));
        }
        res
    }
}

} // verus!
