//! Statements: `print`, assignment, `if` and `while`.

use crate::lexer::{terminated, token_at, RawToken, Token, TokenView};
use crate::parser::decls::{decls_view, lemma_decls_at_bounds, decls_at, DeclView, Decls};
use crate::parser::expr::{lemma_expr_at_bounds, expr_at, Expr, ExprView};
use crate::parser::SyntaxError;
use crate::parser::pretty::{stmt_text, stmts_text};
use vstd::string::StringExecFns;
use vstd::prelude::*;

verus! {

/// A list of statements that holds at least one.
#[derive(Debug, PartialEq, Eq)]
pub struct Stmts {
    pub stmt: StmtType,
    pub stmts: Option<Box<Stmts>>,
}

/// `print ( Expr )`.
#[derive(Debug, PartialEq, Eq)]
pub struct PrintStmt {
    pub expr: Box<Expr>,
}

/// `if ( Expr ) { Decls? Stmts? }` or `while ( Expr ) { Decls? Stmts? }`.
#[derive(Debug, PartialEq, Eq)]
pub struct ControlStmt {
    pub bool: Box<Expr>,
    pub control_type: ControlType,
    pub decls: Option<Box<Decls>>,
    pub stmts: Option<Box<Stmts>>,
}

/// `Name = Expr`.
#[derive(Debug, PartialEq, Eq)]
pub struct AssignStmt {
    pub name: String,
    pub expr: Box<Expr>,
}

/// One statement.
#[derive(Debug, PartialEq, Eq)]
pub enum StmtType {
    Control(Box<ControlStmt>),
    Print(Box<PrintStmt>),
    Assign(Box<AssignStmt>),
}

/// The two kinds of control statement.
#[derive(Debug, Clone, Copy, PartialEq, Eq, Structural)]
pub enum ControlType {
    If,
    While,
}

/// The mathematical value of a statement.
pub enum StmtView {
    Print(ExprView),
    Assign(Seq<char>, ExprView),
    Control(ControlType, ExprView, Seq<DeclView>, Seq<StmtView>),
}

impl View for PrintStmt {
    type V = StmtView;

    open spec fn view(&self) -> StmtView {
        StmtView::Print(self.expr@)
    }
}

impl View for AssignStmt {
    type V = StmtView;

    open spec fn view(&self) -> StmtView {
        StmtView::Assign(self.name@, self.expr@)
    }
}

impl ControlStmt {
    /// The mathematical value of this statement.
    pub open spec fn as_view(self) -> StmtView
        decreases self,
    {
        StmtView::Control(
            self.control_type,
            self.bool@,
            decls_view(self.decls),
            match self.stmts {
                Some(body) => (*body).as_view(),
                None => Seq::empty(),
            },
        )
    }
}

impl View for ControlStmt {
    type V = StmtView;

    open spec fn view(&self) -> StmtView {
        self.as_view()
    }
}

impl StmtType {
    /// The mathematical value of this statement.
    pub open spec fn as_view(self) -> StmtView
        decreases self,
    {
        match self {
            StmtType::Control(control) => (*control).as_view(),
            StmtType::Print(print) => print@,
            StmtType::Assign(assign) => assign@,
        }
    }
}

impl View for StmtType {
    type V = StmtView;

    open spec fn view(&self) -> StmtView {
        self.as_view()
    }
}

impl Stmts {
    /// The statements of the list, in order.
    pub open spec fn as_view(self) -> Seq<StmtView>
        decreases self,
    {
        seq![self.stmt.as_view()] + match self.stmts {
            Some(rest) => (*rest).as_view(),
            None => Seq::empty(),
        }
    }
}

impl View for Stmts {
    type V = Seq<StmtView>;

    open spec fn view(&self) -> Seq<StmtView> {
        self.as_view()
    }
}

/// The statements of a list that may be absent, in order.
pub open spec fn stmts_view(stmts: Option<Box<Stmts>>) -> Seq<StmtView> {
    match stmts {
        Some(list) => list@,
        None => Seq::empty(),
    }
}

/// The kind of control statement that a keyword starts.
pub open spec fn control_of(t: TokenView) -> Option<ControlType> {
    match t.kind {
        RawToken::If => Some(ControlType::If),
        RawToken::While => Some(ControlType::While),
        _ => None,
    }
}

/// The print statement that starts at position `p`, with the position after
/// it: `print ( Expr )`.
pub open spec fn print_at(ts: Seq<TokenView>, p: int) -> Option<(StmtView, int)> {
    match expr_at(ts, p + 2) {
        Some((expr, close)) => {
            if token_at(ts, p).kind == RawToken::Print && token_at(ts, p + 1).kind
                == RawToken::OpenParen && token_at(ts, close).kind == RawToken::CloseParen {
                Some((StmtView::Print(expr), close + 1))
            } else {
                None
            }
        },
        None => None,
    }
}

/// The assignment that starts at position `p`, with the position after it:
/// `Name = Expr`.
pub open spec fn assign_at(ts: Seq<TokenView>, p: int) -> Option<(StmtView, int)> {
    match expr_at(ts, p + 2) {
        Some((expr, next)) => {
            if token_at(ts, p).kind == RawToken::Name && token_at(ts, p + 1).kind
                == RawToken::Assign {
                Some((StmtView::Assign(token_at(ts, p).text, expr), next))
            } else {
                None
            }
        },
        None => None,
    }
}

/// Whether a control statement's head stands at position `p` and ends just
/// before `close`: `if` or `while`, `(`, an expression, `)` at `close`, `{`.
pub open spec fn control_head(ts: Seq<TokenView>, p: int, close: int) -> bool {
    &&& control_of(token_at(ts, p)) is Some
    &&& token_at(ts, p + 1).kind == RawToken::OpenParen
    &&& token_at(ts, close).kind == RawToken::CloseParen
    &&& token_at(ts, close + 1).kind == RawToken::OpenBrace
}

/// The control statement that starts at position `p`, with the position
/// after it: a head, then declarations and statements, either of which may
/// be absent, then `}`. A malformed declaration in the body is an error.
pub open spec fn control_at(ts: Seq<TokenView>, p: int) -> Result<
    Option<(StmtView, int)>,
    SyntaxError,
>
    decreases ts.len() - p, 0int,
{
    match expr_at(ts, p + 2) {
        Some((cond, close)) => {
            if control_head(ts, p, close) {
                match decls_at(ts, close + 2) {
                    Err(e) => Err(e),
                    Ok((decls, mid)) => {
                        proof {
                            lemma_expr_at_bounds(ts, p + 2);
                            lemma_decls_at_bounds(ts, close + 2);
                        }
                        match stmts_at(ts, mid) {
                            Err(e) => Err(e),
                            Ok((stmts, end)) => {
                                if token_at(ts, end).kind == RawToken::CloseBrace {
                                    Ok(
                                        Some(
                                            (
                                                StmtView::Control(
                                                    control_of(token_at(ts, p))->0,
                                                    cond,
                                                    decls,
                                                    stmts,
                                                ),
                                                end + 1,
                                            ),
                                        ),
                                    )
                                } else {
                                    Ok(None)
                                }
                            },
                        }
                    },
                }
            } else {
                Ok(None)
            }
        },
        None => Ok(None),
    }
}

/// The statement that starts at position `p`, with the position after it.
/// The three forms are tried in the order print, control, assignment, and
/// the first that fits is taken.
pub open spec fn stmt_at(ts: Seq<TokenView>, p: int) -> Result<
    Option<(StmtView, int)>,
    SyntaxError,
>
    decreases ts.len() - p, 1int,
{
    match print_at(ts, p) {
        Some(found) => Ok(Some(found)),
        None => match control_at(ts, p) {
            Err(e) => Err(e),
            Ok(Some(found)) => Ok(Some(found)),
            Ok(None) => Ok(assign_at(ts, p)),
        },
    }
}

/// The statements that start at position `p`, with the position after them.
/// The list goes on as long as a statement follows.
pub open spec fn stmts_at(ts: Seq<TokenView>, p: int) -> Result<(Seq<StmtView>, int), SyntaxError>
    decreases ts.len() - p, 2int,
{
    match stmt_at(ts, p) {
        Err(e) => Err(e),
        Ok(None) => Ok((Seq::empty(), p)),
        Ok(Some((stmt, next))) => {
            if p < next <= ts.len() {
                match stmts_at(ts, next) {
                    Err(e) => Err(e),
                    Ok((rest, end)) => Ok((seq![stmt] + rest, end)),
                }
            } else {
                Ok((seq![stmt], next))
            }
        },
    }
}

/// A statement holds at least one token and ends inside the stream, and so
/// does a list of statements that is not empty; in a terminated stream both
/// end before the last token.
pub proof fn lemma_stmts_at_bounds(ts: Seq<TokenView>, p: int)
    requires
        0 <= p <= ts.len(),
    ensures
        control_at(ts, p) matches Ok(Some((_, next))) ==> p < next <= ts.len(),
        stmt_at(ts, p) matches Ok(Some((_, next))) ==> p < next <= ts.len(),
        stmts_at(ts, p) matches Ok((_, end)) ==> p <= end <= ts.len(),
        terminated(ts) && p < ts.len() ==> {
            &&& stmt_at(ts, p) matches Ok(Some((_, next))) ==> next < ts.len()
            &&& stmts_at(ts, p) matches Ok((_, end)) ==> end < ts.len()
        },
    decreases ts.len() - p,
{
    lemma_expr_at_bounds(ts, p + 2);
    if let Some((cond, close)) = expr_at(ts, p + 2) {
        if control_head(ts, p, close) {
            lemma_decls_at_bounds(ts, close + 2);
            if let Ok((decls, mid)) = decls_at(ts, close + 2) {
                lemma_stmts_at_bounds(ts, mid);
            }
        }
    }
    if let Ok(Some((stmt, next))) = stmt_at(ts, p) {
        lemma_stmts_at_bounds(ts, next);
    }
}

impl PrintStmt {
    /// Parses the print statement that starts at position `x` and moves `x`
    /// past it. Where none starts there, `x` stays where it was.
    pub fn parse(lex: &Vec<Token>, x: &mut usize) -> (r: Option<Box<PrintStmt>>)
        requires
            terminated(lex.deep_view()),
            *old(x) < lex.len(),
        ensures
            *old(x) <= *final(x) < lex.len(),
            match print_at(lex.deep_view(), *old(x) as int) {
                Some((stmt, next)) => r matches Some(s) && s@ == stmt && *final(x) == next,
                None => r is None && *final(x) == *old(x),
            },
    {
        let save: usize = *x;
        let ghost ts = lex.deep_view();
        assert(ts[*x as int] == lex@[*x as int]@);
        match &lex[*x] {
            Token::Print => {},
            _ => {
                return None;
            },
        }
        *x += 1;
        assert(ts[*x as int] == lex@[*x as int]@);
        match &lex[*x] {
            Token::OpenParen => {},
            _ => {
                *x = save;
                return None;
            },
        }
        *x += 1;
        let expr = match Expr::new(lex, x) {
            Some(expr) => expr,
            None => {
                *x = save;
                return None;
            },
        };
        assert(ts[*x as int] == lex@[*x as int]@);
        match &lex[*x] {
            Token::CloseParen => {},
            _ => {
                *x = save;
                return None;
            },
        }
        *x += 1;
        Some(Box::new(PrintStmt { expr }))
    }
}

impl AssignStmt {
    /// Parses the assignment that starts at position `x` and moves `x` past
    /// it. Where none starts there, `x` stays where it was.
    pub fn parse(lex: &Vec<Token>, x: &mut usize) -> (r: Option<Box<AssignStmt>>)
        requires
            terminated(lex.deep_view()),
            *old(x) < lex.len(),
        ensures
            *old(x) <= *final(x) < lex.len(),
            match assign_at(lex.deep_view(), *old(x) as int) {
                Some((stmt, next)) => r matches Some(s) && s@ == stmt && *final(x) == next,
                None => r is None && *final(x) == *old(x),
            },
    {
        let save: usize = *x;
        let ghost ts = lex.deep_view();
        assert(ts[*x as int] == lex@[*x as int]@);
        let name = match &lex[*x] {
            Token::Name(real_name) => real_name.clone(),
            _ => {
                return None;
            },
        };
        *x += 1;
        assert(ts[*x as int] == lex@[*x as int]@);
        match &lex[*x] {
            Token::Assign => {},
            _ => {
                *x = save;
                return None;
            },
        }
        *x += 1;
        match Expr::new(lex, x) {
            Some(expr) => Some(Box::new(AssignStmt { expr, name })),
            None => {
                *x = save;
                None
            },
        }
    }
}

impl ControlStmt {
    /// Parses the control statement that starts at position `x` and moves
    /// `x` past it. Where none starts there, and on an error, `x` stays where
    /// it was.
    pub fn parse(lex: &Vec<Token>, x: &mut usize) -> (r: Result<
        Option<Box<ControlStmt>>,
        SyntaxError,
    >)
        requires
            terminated(lex.deep_view()),
            *old(x) < lex.len(),
        ensures
            *old(x) <= *final(x) < lex.len(),
            match control_at(lex.deep_view(), *old(x) as int) {
                Ok(Some((stmt, next))) => r matches Ok(Some(s)) && s@ == stmt && *final(x) == next,
                Ok(None) => r matches Ok(None) && *final(x) == *old(x),
                Err(e) => r matches Err(f) && f == e && *final(x) == *old(x),
            },
        decreases lex.len() - *old(x), 0int,
    {
        let save: usize = *x;
        let ghost ts = lex.deep_view();
        assert(ts[*x as int] == lex@[*x as int]@);
        let control_type = match &lex[*x] {
            Token::If => ControlType::If,
            Token::While => ControlType::While,
            _ => {
                return Ok(None);
            },
        };
        *x += 1;
        assert(ts[*x as int] == lex@[*x as int]@);
        match &lex[*x] {
            Token::OpenParen => {},
            _ => {
                *x = save;
                return Ok(None);
            },
        }
        *x += 1;
        let e = match Expr::new(lex, x) {
            Some(e) => e,
            None => {
                *x = save;
                return Ok(None);
            },
        };
        let ghost close = *x as int;
        assert(ts[*x as int] == lex@[*x as int]@);
        match &lex[*x] {
            Token::CloseParen => {},
            _ => {
                *x = save;
                return Ok(None);
            },
        }
        *x += 1;
        assert(ts[*x as int] == lex@[*x as int]@);
        match &lex[*x] {
            Token::OpenBrace => {},
            _ => {
                *x = save;
                return Ok(None);
            },
        }
        *x += 1;
        assert(control_head(ts, save as int, close));
        let decls = match Decls::new(lex, x) {
            Ok(decls) => decls,
            Err(e) => {
                *x = save;
                return Err(e);
            },
        };
        proof {
            lemma_expr_at_bounds(ts, save + 2);
            lemma_decls_at_bounds(ts, close + 2);
        }
        let stmts = match Stmts::new(lex, x) {
            Ok(stmts) => stmts,
            Err(e) => {
                *x = save;
                return Err(e);
            },
        };
        assert(ts[*x as int] == lex@[*x as int]@);
        match &lex[*x] {
            Token::CloseBrace => {},
            _ => {
                *x = save;
                return Ok(None);
            },
        }
        *x += 1;
        Ok(Some(Box::new(ControlStmt { bool: e, control_type, decls, stmts })))
    }
}

/// Parses the statement that starts at position `x` and moves `x` past it.
/// Where none starts there, and on an error, `x` stays where it was.
pub fn parse_stmt(lex: &Vec<Token>, x: &mut usize) -> (r: Result<Option<StmtType>, SyntaxError>)
    requires
        terminated(lex.deep_view()),
        *old(x) < lex.len(),
    ensures
        *old(x) <= *final(x) < lex.len(),
        match stmt_at(lex.deep_view(), *old(x) as int) {
            Ok(Some((stmt, next))) => r matches Ok(Some(s)) && s@ == stmt && *final(x) == next,
            Ok(None) => r matches Ok(None) && *final(x) == *old(x),
            Err(e) => r matches Err(f) && f == e && *final(x) == *old(x),
        },
    decreases lex.len() - *old(x), 1int,
{
    match PrintStmt::parse(lex, x) {
        Some(print) => Ok(Some(StmtType::Print(print))),
        None => match ControlStmt::parse(lex, x) {
            Err(e) => Err(e),
            Ok(Some(control)) => Ok(Some(StmtType::Control(control))),
            Ok(None) => match AssignStmt::parse(lex, x) {
                Some(assign) => Ok(Some(StmtType::Assign(assign))),
                None => Ok(None),
            },
        },
    }
}

impl Stmts {
    /// Parses the statements that start at position `x` and moves `x` past
    /// them; `None` where no statement starts at `x`. On an error `x` stays
    /// where it was.
    pub fn new(lex: &Vec<Token>, x: &mut usize) -> (r: Result<Option<Box<Stmts>>, SyntaxError>)
        requires
            terminated(lex.deep_view()),
            *old(x) < lex.len(),
        ensures
            *old(x) <= *final(x) < lex.len(),
            match stmts_at(lex.deep_view(), *old(x) as int) {
                Ok((stmts, end)) => r matches Ok(list) && stmts_view(list) == stmts && *final(x)
                    == end,
                Err(e) => r matches Err(f) && f == e && *final(x) == *old(x),
            },
        decreases lex.len() - *old(x), 2int,
    {
        let save: usize = *x;
        proof {
            lemma_stmts_at_bounds(lex.deep_view(), save as int);
        }
        let stmt = match parse_stmt(lex, x) {
            Err(e) => {
                return Err(e);
            },
            Ok(None) => {
                return Ok(None);
            },
            Ok(Some(stmt)) => stmt,
        };
        match Stmts::new(lex, x) {
            Ok(stmts) => Ok(Some(Box::new(Stmts { stmt, stmts }))),
            Err(e) => {
                *x = save;
                Err(e)
            },
        }
    }
}

/// A list of statements holds at least one.
pub proof fn lemma_stmts_nonempty(stmts: Stmts)
    ensures
        stmts@.len() >= 1,
        stmts@[0] == stmts.stmt@,
        stmts@.drop_first() == stmts_view(stmts.stmts),
{
    assert(stmts@.drop_first() =~= stmts_view(stmts.stmts));
}

impl StmtType {
    /// The canonical text of this statement.
    pub fn to_string(&self) -> (r: String)
        ensures
            r@ == stmt_text(self@),
        decreases self,
    {
        match self {
            StmtType::Control(control) => control.to_string(),
            StmtType::Print(print) => print.to_string(),
            StmtType::Assign(assign) => assign.to_string(),
        }
    }
}

impl ControlStmt {
    /// The canonical text of this statement.
    pub fn to_string(&self) -> (r: String)
        ensures
            r@ == stmt_text(self@),
        decreases self,
    {
        let decl_string = match &self.decls {
            None => String::new(),
            Some(decls) => decls.to_string(),
        };
        let stmt_string = match &self.stmts {
            None => String::new(),
            Some(stmts) => stmts.to_string(),
        };
        let mut out = match self.control_type {
            ControlType::If => "if".to_owned(),
            ControlType::While => "while".to_owned(),
        };
        out.append("(");
        out.append(self.bool.to_string().as_str());
        out.append("){");
        out.append(decl_string.as_str());
        out.append(stmt_string.as_str());
        out.append("}");
        out
    }
}

impl PrintStmt {
    /// The canonical text of this statement.
    pub fn to_string(&self) -> (r: String)
        ensures
            r@ == stmt_text(self@),
    {
        let mut out = "print(".to_owned();
        out.append(self.expr.to_string().as_str());
        out.append(")");
        out
    }
}

impl AssignStmt {
    /// The canonical text of this statement.
    pub fn to_string(&self) -> (r: String)
        ensures
            r@ == stmt_text(self@),
    {
        let mut out = "assign ".to_owned();
        out.append(self.name.as_str());
        out.append(" = ");
        out.append(self.expr.to_string().as_str());
        out
    }
}

impl Stmts {
    /// The canonical text of this list.
    pub fn to_string(&self) -> (r: String)
        ensures
            r@ == stmts_text(self@),
        decreases self,
    {
        proof {
            lemma_stmts_nonempty(*self);
        }
        let mut out = self.stmt.to_string();
        out.append("\n");
        match &self.stmts {
            Some(ds) => {
                proof {
                    lemma_stmts_nonempty(**ds);
                }
                out.append(ds.to_string().as_str());
                out.append("\n");
            },
            None => {},
        }
        out
    }
}

} // verus!
