//! Declarations: `TYPE Name = Expr`, one after another.

use crate::lexer::{terminated, token_at, RawToken, Token, TokenView};
use crate::parser::expr::{lemma_expr_at_bounds, expr_at, Expr, ExprView};
use crate::parser::var::{type_of, Var};
use crate::parser::SyntaxError;
use crate::parser::pretty::{decl_text, decls_text};
use vstd::string::StringExecFns;
use vstd::prelude::*;

verus! {

/// One declaration.
#[derive(Debug, PartialEq, Eq)]
pub struct Decl {
    pub ty: Var,
    pub name: String,
    pub expr: Box<Expr>,
}

/// A list of declarations that holds at least one.
#[derive(Debug, PartialEq, Eq)]
pub struct Decls {
    pub decl: Box<Decl>,
    pub decls: Option<Box<Decls>>,
}

/// The mathematical value of a declaration.
pub struct DeclView {
    pub ty: Var,
    pub name: Seq<char>,
    pub expr: ExprView,
}

impl View for Decl {
    type V = DeclView;

    open spec fn view(&self) -> DeclView {
        DeclView { ty: self.ty, name: self.name@, expr: self.expr@ }
    }
}

impl Decls {
    /// The declarations of the list, in order.
    pub open spec fn as_view(self) -> Seq<DeclView>
        decreases self,
    {
        seq![self.decl@] + match self.decls {
            Some(rest) => (*rest).as_view(),
            None => Seq::empty(),
        }
    }
}

impl View for Decls {
    type V = Seq<DeclView>;

    open spec fn view(&self) -> Seq<DeclView> {
        self.as_view()
    }
}

/// The declarations of a list that may be absent, in order.
pub open spec fn decls_view(decls: Option<Box<Decls>>) -> Seq<DeclView> {
    match decls {
        Some(list) => list@,
        None => Seq::empty(),
    }
}

/// The declaration that starts at position `p`, with the position after it:
/// a type keyword, a name, `=` and an expression.
pub open spec fn decl_at(ts: Seq<TokenView>, p: int) -> Result<(DeclView, int), SyntaxError> {
    match (type_of(token_at(ts, p)), expr_at(ts, p + 3)) {
        (Some(ty), Some((expr, next))) => {
            if token_at(ts, p + 1).kind == RawToken::Name && token_at(ts, p + 2).kind
                == RawToken::Assign {
                Ok((DeclView { ty, name: token_at(ts, p + 1).text, expr }, next))
            } else {
                Err(SyntaxError::BadDeclaration)
            }
        },
        _ => Err(SyntaxError::BadDeclaration),
    }
}

/// The declarations that start at position `p`, with the position after
/// them. The list goes on as long as a type keyword follows, and every type
/// keyword must start a declaration.
pub open spec fn decls_at(ts: Seq<TokenView>, p: int) -> Result<(Seq<DeclView>, int), SyntaxError>
    decreases ts.len() - p,
{
    if type_of(token_at(ts, p)) is None {
        Ok((Seq::empty(), p))
    } else {
        match decl_at(ts, p) {
            Err(e) => Err(e),
            Ok((decl, next)) => {
                proof {
                    lemma_expr_at_bounds(ts, p + 3);
                }
                match decls_at(ts, next) {
                    Err(e) => Err(e),
                    Ok((rest, end)) => Ok((seq![decl] + rest, end)),
                }
            },
        }
    }
}

/// A list of declarations ends at or after the position where it starts and
/// inside the stream.
pub proof fn lemma_decls_at_bounds(ts: Seq<TokenView>, p: int)
    requires
        0 <= p <= ts.len(),
    ensures
        decls_at(ts, p) matches Ok((_, end)) ==> p <= end <= ts.len(),
        terminated(ts) && p < ts.len() ==> (decls_at(ts, p) matches Ok((_, end)) ==> end
            < ts.len()),
    decreases ts.len() - p,
{
    if type_of(token_at(ts, p)) is Some {
        if let Ok((decl, next)) = decl_at(ts, p) {
            lemma_expr_at_bounds(ts, p + 3);
            lemma_decls_at_bounds(ts, next);
        }
    }
}

impl Decl {
    /// Parses the declaration that starts at position `x` and moves `x` past
    /// it. Where the tokens there are no declaration, `x` stays where it was.
    pub fn new(lex: &Vec<Token>, x: &mut usize) -> (r: Result<Decl, SyntaxError>)
        requires
            terminated(lex.deep_view()),
            *old(x) < lex.len(),
        ensures
            *old(x) <= *final(x) < lex.len(),
            match decl_at(lex.deep_view(), *old(x) as int) {
                Ok((decl, next)) => r matches Ok(d) && d@ == decl && *final(x) == next,
                Err(e) => r matches Err(f) && f == e && *final(x) == *old(x),
            },
    {
        let save: usize = *x;
        let ghost ts = lex.deep_view();
        assert(ts[*x as int] == lex@[*x as int]@);
        let ty = match Var::from_token(&lex[*x]) {
            Some(ty) => ty,
            None => {
                return Err(SyntaxError::BadDeclaration);
            },
        };
        *x += 1;
        assert(ts[*x as int] == lex@[*x as int]@);
        let name = match &lex[*x] {
            Token::Name(text) => text.clone(),
            _ => {
                *x = save;
                return Err(SyntaxError::BadDeclaration);
            },
        };
        *x += 1;
        assert(ts[*x as int] == lex@[*x as int]@);
        match &lex[*x] {
            Token::Assign => {},
            _ => {
                *x = save;
                return Err(SyntaxError::BadDeclaration);
            },
        }
        *x += 1;
        match Expr::new(lex, x) {
            None => {
                *x = save;
                Err(SyntaxError::BadDeclaration)
            },
            Some(expr) => Ok(Decl { ty, name, expr }),
        }
    }
}

impl Decls {
    /// Parses the declarations that start at position `x` and moves `x` past
    /// them; `None` where no type keyword stands at `x`, and at a position at
    /// or past the end of the stream. On an error `x` stays where it was.
    pub fn new(lex: &Vec<Token>, x: &mut usize) -> (r: Result<Option<Box<Decls>>, SyntaxError>)
        requires
            *old(x) < lex.len() ==> terminated(lex.deep_view()),
        ensures
            *old(x) <= *final(x),
            *old(x) < lex.len() ==> *final(x) < lex.len(),
            match decls_at(lex.deep_view(), *old(x) as int) {
                Ok((decls, end)) => r matches Ok(list) && decls_view(list) == decls && *final(x)
                    == end,
                Err(e) => r matches Err(f) && f == e && *final(x) == *old(x),
            },
            r matches Ok(Some(_)) ==> *final(x) > *old(x),
            r matches Ok(None) <==> type_of(token_at(lex.deep_view(), *old(x) as int)) is None,
        decreases lex.len() - *old(x),
    {
        let save: usize = *x;
        let ghost ts = lex.deep_view();
        if *x >= lex.len() {
            return Ok(None);
        }
        assert(ts[*x as int] == lex@[*x as int]@);
        if Var::from_token(&lex[*x]).is_none() {
            return Ok(None);
        }
        proof {
            lemma_expr_at_bounds(ts, save + 3);
        }
        let decl = match Decl::new(lex, x) {
            Ok(decl) => decl,
            Err(e) => {
                return Err(e);
            },
        };
        match Decls::new(lex, x) {
            Ok(decls) => Ok(Some(Box::new(Decls { decl: Box::new(decl), decls }))),
            Err(e) => {
                *x = save;
                Err(e)
            },
        }
    }
}

/// A list of declarations holds at least one.
pub proof fn lemma_decls_nonempty(decls: Decls)
    ensures
        decls@.len() >= 1,
        decls@[0] == decls.decl@,
        decls@.drop_first() == decls_view(decls.decls),
{
    assert(decls@.drop_first() =~= decls_view(decls.decls));
}

impl Decl {
    /// The canonical text of this declaration.
    pub fn to_string(&self) -> (r: String)
        ensures
            r@ == decl_text(self@),
    {
        let mut out = self.ty.to_string();
        out.append(" ");
        out.append(self.name.as_str());
        out.append(" = ");
        out.append(self.expr.to_string().as_str());
        out
    }
}

impl Decls {
    /// The canonical text of this list.
    pub fn to_string(&self) -> (r: String)
        ensures
            r@ == decls_text(self@),
        decreases self,
    {
        proof {
            lemma_decls_nonempty(*self);
        }
        let mut out = self.decl.to_string();
        out.append("\n");
        match &self.decls {
            Some(ds) => {
                proof {
                    lemma_decls_nonempty(**ds);
                }
                out.append(ds.to_string().as_str());
                out.append("\n");
            },
            None => {},
        }
        out
    }
}

} // verus!
