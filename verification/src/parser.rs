//! The parser: from tokens to statements.
//!
//! Recursive descent over one read position. The grammar is stated as spec
//! functions from a token sequence and a position to a result and the
//! position behind what was read; the executable parser is proved to compute
//! them.

use vstd::prelude::*;
use crate::ast::{BinOp, Expr, ExprView, Stmt, StmtView};
use crate::error::{ErrorView, PalladError};
use crate::lexer::{describe, Token, TokenView};

verus! {

// ---------------------------------------------------------------------
// Lines and failures
// ---------------------------------------------------------------------

/// How many of the first `upto` tokens end a line.
pub open spec fn eol_count(ts: Seq<TokenView>, upto: int) -> int
    decreases upto,
{
    if upto <= 0 {
        0
    } else {
        eol_count(ts, upto - 1) + if upto <= ts.len() && ts[upto - 1] is Eol {
            1int
        } else {
            0int
        }
    }
}

/// The line on which the token at `pos` stands: one more than the number of
/// line ends before it, as far as the machine can count.
pub open spec fn line_at(ts: Seq<TokenView>, pos: int) -> usize {
    if 1 + eol_count(ts, pos) <= usize::MAX {
        (1 + eol_count(ts, pos)) as usize
    } else {
        usize::MAX
    }
}

/// The failure at `pos`, where something else was expected: it shows the
/// token that stands there, or says that the input has ended.
pub open spec fn unexpected(ts: Seq<TokenView>, pos: int, expected: Seq<char>) -> ErrorView {
    if 0 <= pos < ts.len() {
        ErrorView::UnexpectedToken { got: describe(ts[pos]), expected, line: line_at(ts, pos) }
    } else {
        ErrorView::EndOfInput { expected, line: line_at(ts, pos) }
    }
}

pub proof fn lemma_eol_count_bounds(ts: Seq<TokenView>, upto: int)
    ensures
        0 <= eol_count(ts, upto),
        eol_count(ts, upto) <= upto || upto < 0,
    decreases upto,
{
    if upto > 0 {
        lemma_eol_count_bounds(ts, upto - 1);
    }
}

// ---------------------------------------------------------------------
// Expressions
// ---------------------------------------------------------------------

/// The result of parsing an expression: the expression and the position
/// behind it.
pub type Parsed = Result<(ExprView, int), ErrorView>;

/// What an expression may start with.
pub open spec fn factor_expected() -> Seq<char> {
    "integer, float, variable, or '('"@
}

/// A binary node.
pub open spec fn binary(left: ExprView, op: BinOp, right: ExprView) -> ExprView {
    ExprView::Binary { left: Box::new(left), op, right: Box::new(right) }
}

/// The operator that a token of the multiplicative level stands for.
pub open spec fn product_op(t: TokenView) -> Option<BinOp> {
    match t {
        TokenView::Star => Some(BinOp::Mul),
        TokenView::Slash => Some(BinOp::Div),
        TokenView::IntDiv => Some(BinOp::IntDiv),
        TokenView::Mod => Some(BinOp::Mod),
        _ => None,
    }
}

/// The operator that a token of the additive level stands for.
pub open spec fn sum_op(t: TokenView) -> Option<BinOp> {
    match t {
        TokenView::Plus => Some(BinOp::Add),
        TokenView::Minus => Some(BinOp::Sub),
        _ => None,
    }
}

/// A factor: a literal, a variable, an expression in brackets, or a minus
/// sign before a factor, which stands for zero minus that factor.
pub open spec fn factor(ts: Seq<TokenView>, pos: int) -> Parsed
    decreases ts.len() - pos, 0nat,
{
    if pos < 0 || pos >= ts.len() {
        Err(unexpected(ts, pos, factor_expected()))
    } else {
        match ts[pos] {
            TokenView::Minus => match factor(ts, pos + 1) {
                Ok((operand, next)) => Ok((binary(ExprView::Int(0), BinOp::Sub, operand), next)),
                Err(e) => Err(e),
            },
            TokenView::Int(n) => Ok((ExprView::Int(n), pos + 1)),
            TokenView::Float(text) => Ok((ExprView::Float(text), pos + 1)),
            TokenView::Str(s) => Ok((ExprView::Str(s), pos + 1)),
            TokenView::Ident(name) => Ok((ExprView::Var(name), pos + 1)),
            TokenView::LParen => match sum(ts, pos + 1) {
                Ok((inner, next)) => if 0 <= next < ts.len() && ts[next] is RParen {
                    Ok((inner, next + 1))
                } else {
                    Err(unexpected(ts, next, "')'"@))
                },
                Err(e) => Err(e),
            },
            _ => Err(unexpected(ts, pos, factor_expected())),
        }
    }
}

/// What follows the first factor of a product: any number of operators of
/// the multiplicative level, each with a factor behind it, folded to the
/// left.
///
/// The test on `next` only bounds the recursion: a factor always ends behind
/// where it started ([`lemma_expression_advances`]).
pub open spec fn product_rest(ts: Seq<TokenView>, pos: int, left: ExprView) -> Parsed
    decreases ts.len() - pos, 1nat,
{
    if 0 <= pos < ts.len() && product_op(ts[pos]) is Some {
        match factor(ts, pos + 1) {
            Ok((right, next)) => if pos < next <= ts.len() {
                product_rest(ts, next, binary(left, product_op(ts[pos])->Some_0, right))
            } else {
                Ok((left, pos))
            },
            Err(e) => Err(e),
        }
    } else {
        Ok((left, pos))
    }
}

/// A product: a factor and what follows it.
pub open spec fn product(ts: Seq<TokenView>, pos: int) -> Parsed
    decreases ts.len() - pos, 2nat,
{
    match factor(ts, pos) {
        Ok((left, next)) => if pos <= next <= ts.len() {
            product_rest(ts, next, left)
        } else {
            Ok((left, pos))
        },
        Err(e) => Err(e),
    }
}

/// What follows the first product of a sum: any number of `+` and `-`, each
/// with a product behind it, folded to the left.
pub open spec fn sum_rest(ts: Seq<TokenView>, pos: int, left: ExprView) -> Parsed
    decreases ts.len() - pos, 3nat,
{
    if 0 <= pos < ts.len() && sum_op(ts[pos]) is Some {
        match product(ts, pos + 1) {
            Ok((right, next)) => if pos < next <= ts.len() {
                sum_rest(ts, next, binary(left, sum_op(ts[pos])->Some_0, right))
            } else {
                Ok((left, pos))
            },
            Err(e) => Err(e),
        }
    } else {
        Ok((left, pos))
    }
}

/// A sum: a product and what follows it.
pub open spec fn sum(ts: Seq<TokenView>, pos: int) -> Parsed
    decreases ts.len() - pos, 4nat,
{
    match product(ts, pos) {
        Ok((left, next)) => if pos <= next <= ts.len() {
            sum_rest(ts, next, left)
        } else {
            Ok((left, pos))
        },
        Err(e) => Err(e),
    }
}

/// An expression is a sum.
pub open spec fn expression(ts: Seq<TokenView>, pos: int) -> Parsed {
    sum(ts, pos)
}

/// Where `r` is a success, it ends behind `pos` and within the tokens.
pub open spec fn advances(r: Parsed, pos: int, len: nat) -> bool {
    r is Ok ==> pos < r->Ok_0.1 <= len
}

/// Where `r` is a success, it ends at or behind `pos` and within the tokens.
pub open spec fn stays_or_advances(r: Parsed, pos: int, len: nat) -> bool {
    r is Ok ==> pos <= r->Ok_0.1 <= len
}

proof fn lemma_factor_advances(ts: Seq<TokenView>, pos: int)
    requires
        0 <= pos,
    ensures
        advances(factor(ts, pos), pos, ts.len()),
    decreases ts.len() - pos, 0nat,
{
    if pos < ts.len() {
        match ts[pos] {
            TokenView::Minus => {
                lemma_factor_advances(ts, pos + 1);
            },
            TokenView::LParen => {
                lemma_sum_advances(ts, pos + 1);
            },
            _ => {},
        }
    }
}

proof fn lemma_product_rest_advances(ts: Seq<TokenView>, pos: int, left: ExprView)
    requires
        0 <= pos <= ts.len(),
    ensures
        stays_or_advances(product_rest(ts, pos, left), pos, ts.len()),
    decreases ts.len() - pos, 1nat,
{
    if pos < ts.len() && product_op(ts[pos]) is Some {
        lemma_factor_advances(ts, pos + 1);
        if let Ok((right, next)) = factor(ts, pos + 1) {
            lemma_product_rest_advances(
                ts,
                next,
                binary(left, product_op(ts[pos])->Some_0, right),
            );
        }
    }
}

proof fn lemma_product_advances(ts: Seq<TokenView>, pos: int)
    requires
        0 <= pos,
    ensures
        advances(product(ts, pos), pos, ts.len()),
    decreases ts.len() - pos, 2nat,
{
    lemma_factor_advances(ts, pos);
    if let Ok((left, next)) = factor(ts, pos) {
        lemma_product_rest_advances(ts, next, left);
    }
}

proof fn lemma_sum_rest_advances(ts: Seq<TokenView>, pos: int, left: ExprView)
    requires
        0 <= pos <= ts.len(),
    ensures
        stays_or_advances(sum_rest(ts, pos, left), pos, ts.len()),
    decreases ts.len() - pos, 3nat,
{
    if pos < ts.len() && sum_op(ts[pos]) is Some {
        lemma_product_advances(ts, pos + 1);
        if let Ok((right, next)) = product(ts, pos + 1) {
            lemma_sum_rest_advances(ts, next, binary(left, sum_op(ts[pos])->Some_0, right));
        }
    }
}

proof fn lemma_sum_advances(ts: Seq<TokenView>, pos: int)
    requires
        0 <= pos,
    ensures
        advances(sum(ts, pos), pos, ts.len()),
    decreases ts.len() - pos, 4nat,
{
    lemma_product_advances(ts, pos);
    if let Ok((left, next)) = product(ts, pos) {
        lemma_sum_rest_advances(ts, next, left);
    }
}

/// An expression that parses ends behind where it started, and so does
/// every factor and product: the tests on positions in [`product_rest`],
/// [`product`], [`sum_rest`] and [`sum`] always hold.
pub proof fn lemma_expression_advances(ts: Seq<TokenView>, pos: int)
    requires
        0 <= pos,
    ensures
        advances(factor(ts, pos), pos, ts.len()),
        advances(product(ts, pos), pos, ts.len()),
        advances(sum(ts, pos), pos, ts.len()),
        advances(expression(ts, pos), pos, ts.len()),
{
    lemma_factor_advances(ts, pos);
    lemma_product_advances(ts, pos);
    lemma_sum_advances(ts, pos);
}

// ---------------------------------------------------------------------
// Statements
// ---------------------------------------------------------------------

/// The result of parsing one statement: the statement and the position
/// behind it.
pub type ParsedStmt = Result<(StmtView, int), ErrorView>;

/// The result of parsing the arguments of a call: the arguments and the
/// position behind the closing bracket.
pub type ParsedArgs = Result<(Seq<ExprView>, int), ErrorView>;

/// The statement that starts with `var` at `pos`: an identifier, `=` and an
/// expression.
pub open spec fn let_statement(ts: Seq<TokenView>, pos: int) -> ParsedStmt {
    if 0 <= pos + 1 < ts.len() && ts[pos + 1] is Ident {
        if pos + 2 < ts.len() && ts[pos + 2] is Eq {
            match expression(ts, pos + 3) {
                Ok((expr, next)) => Ok(
                    (StmtView::Let { name: ts[pos + 1]->Ident_0, expr }, next),
                ),
                Err(e) => Err(e),
            }
        } else {
            Err(unexpected(ts, pos + 2, "'='"@))
        }
    } else {
        Err(unexpected(ts, pos + 1, "identifier"@))
    }
}

/// The rest of the arguments of a call, from `pos` on, behind the arguments
/// `args` that were read before: a closing bracket, or an expression
/// followed by a comma and more, or by the closing bracket.
pub open spec fn arguments(ts: Seq<TokenView>, pos: int, args: Seq<ExprView>) -> ParsedArgs
    decreases ts.len() - pos,
{
    if 0 <= pos < ts.len() && ts[pos] is RParen {
        Ok((args, pos + 1))
    } else if pos < 0 {
        Err(unexpected(ts, pos, factor_expected()))
    } else {
        match expression(ts, pos) {
            Ok((arg, next)) => {
                proof {
                    lemma_expression_advances(ts, pos);
                }
                if next < ts.len() && ts[next] is Comma {
                    arguments(ts, next + 1, args.push(arg))
                } else if next < ts.len() && ts[next] is RParen {
                    Ok((args.push(arg), next + 1))
                } else {
                    Err(unexpected(ts, next, "',' or ')'"@))
                }
            },
            Err(e) => Err(e),
        }
    }
}

/// The statement that starts with `print` at `pos`: a call of the builtin
/// with the arguments in brackets.
pub open spec fn print_statement(ts: Seq<TokenView>, pos: int) -> ParsedStmt {
    if 0 <= pos + 1 < ts.len() && ts[pos + 1] is LParen {
        match arguments(ts, pos + 2, Seq::empty()) {
            Ok((args, next)) => Ok(
                (StmtView::Expr(ExprView::Call { name: "print"@, args }), next),
            ),
            Err(e) => Err(e),
        }
    } else {
        Err(unexpected(ts, pos + 1, "'('"@))
    }
}

pub proof fn lemma_arguments_advance(ts: Seq<TokenView>, pos: int, args: Seq<ExprView>)
    requires
        0 <= pos,
    ensures
        arguments(ts, pos, args) is Ok ==> pos < arguments(ts, pos, args)->Ok_0.1 <= ts.len(),
    decreases ts.len() - pos,
{
    if 0 <= pos < ts.len() && ts[pos] is RParen {
    } else {
        lemma_expression_advances(ts, pos);
        if let Ok((arg, next)) = expression(ts, pos) {
            if next < ts.len() && ts[next] is Comma {
                lemma_arguments_advance(ts, next + 1, args.push(arg));
            }
        }
    }
}

/// A statement that parses ends behind where it started.
pub proof fn lemma_statement_advances(ts: Seq<TokenView>, pos: int)
    requires
        0 <= pos,
    ensures
        let_statement(ts, pos) is Ok ==> pos < let_statement(ts, pos)->Ok_0.1 <= ts.len(),
        print_statement(ts, pos) is Ok ==> pos < print_statement(ts, pos)->Ok_0.1 <= ts.len(),
{
    lemma_expression_advances(ts, pos + 3);
    lemma_arguments_advance(ts, pos + 2, Seq::empty());
}

/// The result of parsing statements.
pub type ParsedProgram = Result<Seq<StmtView>, ErrorView>;

/// Puts a statement before the statements of a result; a failure stays as
/// it is.
pub open spec fn statement_then(s: StmtView, rest: ParsedProgram) -> ParsedProgram {
    match rest {
        Ok(more) => Ok(seq![s] + more),
        Err(e) => Err(e),
    }
}

/// What a statement may start with.
pub open spec fn statement_expected() -> Seq<char> {
    "'var', 'print', or end of line"@
}

/// The statements from `pos` to the end of the tokens. A line end between
/// statements is passed over.
pub open spec fn statements(ts: Seq<TokenView>, pos: int) -> ParsedProgram
    decreases ts.len() - pos,
{
    if pos < 0 || pos >= ts.len() {
        Ok(Seq::empty())
    } else {
        proof {
            lemma_statement_advances(ts, pos);
        }
        match ts[pos] {
            TokenView::Var => match let_statement(ts, pos) {
                Ok((s, next)) => statement_then(s, statements(ts, next)),
                Err(e) => Err(e),
            },
            TokenView::Print => match print_statement(ts, pos) {
                Ok((s, next)) => statement_then(s, statements(ts, next)),
                Err(e) => Err(e),
            },
            TokenView::Eol => statements(ts, pos + 1),
            _ => Err(unexpected(ts, pos, statement_expected())),
        }
    }
}

/// The statements that a token sequence stands for, or its first syntax
/// failure.
pub open spec fn parse_program(ts: Seq<TokenView>) -> ParsedProgram {
    statements(ts, 0)
}

// ---------------------------------------------------------------------
// The executable parser
// ---------------------------------------------------------------------

/// A parser over a token sequence: a read position and the number of the
/// line on which it stands.
pub struct Parser {
    tokens: Vec<Token>,
    pos: usize,
    line: usize,
}

/// The model of the result of parsing an expression that ended at `next`.
pub open spec fn parsed_view(r: Result<Expr, PalladError>, next: int) -> Parsed {
    match r {
        Ok(e) => Ok((e@, next)),
        Err(e) => Err(e@),
    }
}

/// The model of the result of parsing statements.
pub open spec fn program_view(r: Result<Vec<Stmt>, PalladError>) -> ParsedProgram {
    match r {
        Ok(stmts) => Ok(stmts.deep_view()),
        Err(e) => Err(e@),
    }
}

proof fn lemma_statement_then_push(done: Seq<StmtView>, s: StmtView, rest: ParsedProgram)
    ensures
        statements_then(done.push(s), rest) == statements_then(done, statement_then(s, rest)),
{
    if let Ok(more) = rest {
        assert(done.push(s) + more =~= done + (seq![s] + more));
    }
}

/// Puts statements before the statements of a result; a failure stays as it
/// is.
pub open spec fn statements_then(done: Seq<StmtView>, rest: ParsedProgram) -> ParsedProgram {
    match rest {
        Ok(more) => Ok(done + more),
        Err(e) => Err(e),
    }
}

impl Parser {
    /// The tokens that this parser reads.
    pub closed spec fn tokens(&self) -> Seq<TokenView> {
        self.tokens.deep_view()
    }

    /// The index of the token that is read next.
    pub closed spec fn position(&self) -> int {
        self.pos as int
    }

    /// The number of the line on which the parser stands.
    pub closed spec fn line(&self) -> usize {
        self.line
    }

    /// The position lies within the tokens, and the line is the one on which
    /// the token at that position stands.
    pub closed spec fn wf(&self) -> bool {
        &&& self.pos <= self.tokens.len()
        &&& self.line == line_at(self.tokens.deep_view(), self.pos as int)
    }

    /// A well-formed parser stands within its tokens, on the line of its
    /// position.
    pub proof fn lemma_wf(&self)
        requires
            self.wf(),
        ensures
            0 <= self.position() <= self.tokens().len(),
            self.line() == line_at(self.tokens(), self.position()),
    {
    }

    /// A parser at the start of the given tokens, on line one.
    pub fn new(tokens: Vec<Token>) -> (p: Self)
        ensures
            p.wf(),
            p.tokens() == tokens.deep_view(),
            p.position() == 0,
    {
        Self { tokens, pos: 0, line: 1 }
    }

    /// The token at the read position, if there is one.
    fn current(&self) -> (r: Option<&Token>)
        requires
            self.wf(),
        ensures
            match r {
                Some(t) => self.position() < self.tokens().len() && t@ == self.tokens()[
                    self.position()
                ],
                None => self.position() == self.tokens().len(),
            },
    {
        if self.pos < self.tokens.len() {
            Some(&self.tokens[self.pos])
        } else {
            None
        }
    }

    /// Moves past the token at the read position; behind a line end the next
    /// line begins.
    fn advance(&mut self)
        requires
            old(self).wf(),
            old(self).position() < old(self).tokens().len(),
        ensures
            final(self).wf(),
            final(self).tokens() == old(self).tokens(),
            final(self).position() == old(self).position() + 1,
    {
        proof {
            lemma_eol_count_bounds(self.tokens.deep_view(), self.pos as int);
            lemma_eol_count_bounds(self.tokens.deep_view(), self.pos + 1);
        }
        let ends_line = match &self.tokens[self.pos] {
            Token::Eol => true,
            _ => false,
        };
        if ends_line && self.line < usize::MAX {
            self.line += 1;
        }
        self.pos += 1;
    }

    /// The failure at the read position, where `expected` would have been
    /// in order.
    fn fail(&self, expected: &str) -> (e: PalladError)
        requires
            self.wf(),
        ensures
            e@ == unexpected(self.tokens(), self.position(), expected@),
    {
        match self.current() {
            Some(token) => PalladError::UnexpectedToken {
                got: token.describe(),
                expected: String::from_str(expected),
                line: self.line,
            },
            None => PalladError::EndOfInput {
                expected: String::from_str(expected),
                line: self.line,
            },
        }
    }

    /// Parses the statements from the read position to the end of the
    /// tokens.
    ///
    /// On success the parser stands at the end. A failure is the first one
    /// in reading order.
    pub fn parse(&mut self) -> (r: Result<Vec<Stmt>, PalladError>)
        requires
            old(self).wf(),
        ensures
            final(self).wf(),
            final(self).tokens() == old(self).tokens(),
            program_view(r) == statements(old(self).tokens(), old(self).position()),
            r is Ok ==> final(self).position() == old(self).tokens().len(),
    {
        let mut stmts: Vec<Stmt> = Vec::new();
        let ghost ts = self.tokens.deep_view();
        let ghost goal = statements(ts, self.pos as int);
        assert(stmts.deep_view() =~= Seq::<StmtView>::empty());
        assert(statements_then(stmts.deep_view(), statements(ts, self.pos as int)) == goal) by {
            if let Ok(more) = goal {
                assert(stmts.deep_view() + more =~= more);
            }
        }
        while self.pos < self.tokens.len()
            invariant
                self.wf(),
                self.tokens() == ts,
                ts == old(self).tokens(),
                goal == statements(old(self).tokens(), old(self).position()),
                statements_then(stmts.deep_view(), statements(ts, self.pos as int)) == goal,
            decreases self.tokens.len() - self.pos,
        {
            let ghost start = self.pos as int;
            let ghost done = stmts.deep_view();
            proof {
                lemma_statement_advances(ts, start);
            }
            let kind: u8 = match &self.tokens[self.pos] {
                Token::Var => 0,
                Token::Print => 1,
                Token::Eol => 2,
                _ => 3,
            };
            if kind == 0 {
                match self.parse_let() {
                    Ok(stmt) => {
                        proof {
                            lemma_statement_then_push(
                                done,
                                stmt@,
                                statements(ts, self.pos as int),
                            );
                        }
                        stmts.push(stmt);
                        assert(stmts.deep_view() =~= done.push(stmt@));
                    },
                    Err(e) => {
                        return Err(e);
                    },
                }
            } else if kind == 1 {
                match self.parse_print() {
                    Ok(stmt) => {
                        proof {
                            lemma_statement_then_push(
                                done,
                                stmt@,
                                statements(ts, self.pos as int),
                            );
                        }
                        stmts.push(stmt);
                        assert(stmts.deep_view() =~= done.push(stmt@));
                    },
                    Err(e) => {
                        return Err(e);
                    },
                }
            } else if kind == 2 {
                self.advance();
            } else {
                return Err(self.fail("'var', 'print', or end of line"));
            }
        }
        assert(stmts.deep_view() + Seq::<StmtView>::empty() =~= stmts.deep_view());
        Ok(stmts)
    }

    /// Parses the statement that starts with `var` at the read position.
    fn parse_let(&mut self) -> (r: Result<Stmt, PalladError>)
        requires
            old(self).wf(),
            old(self).position() < old(self).tokens().len(),
            old(self).tokens()[old(self).position()] is Var,
        ensures
            final(self).wf(),
            final(self).tokens() == old(self).tokens(),
            match let_statement(old(self).tokens(), old(self).position()) {
                Ok((s, next)) => r is Ok && r->Ok_0@ == s && final(self).position() == next,
                Err(e) => r is Err && r->Err_0@ == e,
            },
    {
        self.advance();
        let name = match self.current() {
            Some(Token::Ident(name)) => name.clone(),
            _ => {
                return Err(self.fail("identifier"));
            },
        };
        self.advance();
        match self.current() {
            Some(Token::Eq) => {},
            _ => {
                return Err(self.fail("'='"));
            },
        }
        self.advance();
        match self.parse_expr() {
            Ok(expr) => Ok(Stmt::Let { name, expr }),
            Err(e) => Err(e),
        }
    }

    /// Parses the statement that starts with `print` at the read position.
    fn parse_print(&mut self) -> (r: Result<Stmt, PalladError>)
        requires
            old(self).wf(),
            old(self).position() < old(self).tokens().len(),
            old(self).tokens()[old(self).position()] is Print,
        ensures
            final(self).wf(),
            final(self).tokens() == old(self).tokens(),
            match print_statement(old(self).tokens(), old(self).position()) {
                Ok((s, next)) => r is Ok && r->Ok_0@ == s && final(self).position() == next,
                Err(e) => r is Err && r->Err_0@ == e,
            },
    {
        self.advance();
        match self.current() {
            Some(Token::LParen) => {},
            _ => {
                return Err(self.fail("'('"));
            },
        }
        self.advance();
        let ghost ts = self.tokens.deep_view();
        let ghost goal = arguments(ts, self.pos as int, Seq::empty());
        let mut args: Vec<Expr> = Vec::new();
        assert(args.deep_view() =~= Seq::<ExprView>::empty());
        loop
            invariant_except_break
                arguments(ts, self.pos as int, args.deep_view()) == goal,
            invariant
                self.wf(),
                self.tokens() == ts,
                ts == old(self).tokens(),
                goal == arguments(ts, old(self).position() + 2, Seq::empty()),
                old(self).position() + 1 < ts.len(),
                ts[old(self).position() + 1] is LParen,
            ensures
                goal == Ok::<(Seq<ExprView>, int), ErrorView>((args.deep_view(), self.pos as int)),
            decreases self.tokens.len() - self.pos,
        {
            let ghost read = args.deep_view();
            let closes = match self.current() {
                Some(Token::RParen) => true,
                _ => false,
            };
            if closes {
                self.advance();
                break ;
            }
            proof {
                lemma_expression_advances(ts, self.pos as int);
            }
            match self.parse_expr() {
                Ok(arg) => {
                    args.push(arg);
                    assert(args.deep_view() =~= read.push(arg@));
                },
                Err(e) => {
                    return Err(e);
                },
            }
            let follows: u8 = match self.current() {
                Some(Token::Comma) => 0,
                Some(Token::RParen) => 1,
                _ => 2,
            };
            if follows == 0 {
                self.advance();
            } else if follows == 1 {
                self.advance();
                break ;
            } else {
                return Err(self.fail("',' or ')'"));
            }
        }
        let name = String::from_str("print");
        proof {
            crate::ast::lemma_call_args_view(name, args);
        }
        Ok(Stmt::Expr(Expr::Call { name, args }))
    }

    /// Parses an expression at the read position.
    ///
    /// On success the parser stands behind the expression.
    pub fn parse_expr(&mut self) -> (r: Result<Expr, PalladError>)
        requires
            old(self).wf(),
        ensures
            final(self).wf(),
            final(self).tokens() == old(self).tokens(),
            parsed_view(r, final(self).position()) == expression(
                old(self).tokens(),
                old(self).position(),
            ),
        decreases old(self).tokens().len() - old(self).position(), 5nat,
    {
        self.parse_add_sub()
    }

    /// Parses a sum: products joined by `+` and `-`, from left to right.
    fn parse_add_sub(&mut self) -> (r: Result<Expr, PalladError>)
        requires
            old(self).wf(),
        ensures
            final(self).wf(),
            final(self).tokens() == old(self).tokens(),
            parsed_view(r, final(self).position()) == sum(
                old(self).tokens(),
                old(self).position(),
            ),
        decreases old(self).tokens().len() - old(self).position(), 4nat,
    {
        let ghost ts = self.tokens.deep_view();
        let ghost start = self.pos as int;
        proof {
            lemma_expression_advances(ts, start);
        }
        let mut left = match self.parse_mul_div() {
            Ok(e) => e,
            Err(e) => {
                return Err(e);
            },
        };
        loop
            invariant
                self.wf(),
                self.tokens() == ts,
                ts == old(self).tokens(),
                start == old(self).position(),
                start < self.pos,
                sum_rest(ts, self.pos as int, left@) == sum(ts, start),
            ensures
                sum(ts, start) == Ok::<(ExprView, int), ErrorView>((left@, self.pos as int)),
            decreases self.tokens.len() - self.pos,
        {
            let op = match self.current() {
                Some(Token::Plus) => BinOp::Add,
                Some(Token::Minus) => BinOp::Sub,
                _ => {
                    break ;
                },
            };
            proof {
                lemma_expression_advances(ts, self.pos + 1);
            }
            self.advance();
            let right = match self.parse_mul_div() {
                Ok(e) => e,
                Err(e) => {
                    return Err(e);
                },
            };
            left = Expr::Binary { left: Box::new(left), op, right: Box::new(right) };
        }
        Ok(left)
    }

    /// Parses a product: factors joined by `*`, `/`, `//` and `%`, from left
    /// to right.
    fn parse_mul_div(&mut self) -> (r: Result<Expr, PalladError>)
        requires
            old(self).wf(),
        ensures
            final(self).wf(),
            final(self).tokens() == old(self).tokens(),
            parsed_view(r, final(self).position()) == product(
                old(self).tokens(),
                old(self).position(),
            ),
        decreases old(self).tokens().len() - old(self).position(), 2nat,
    {
        let ghost ts = self.tokens.deep_view();
        let ghost start = self.pos as int;
        proof {
            lemma_expression_advances(ts, start);
        }
        let mut left = match self.parse_factor() {
            Ok(e) => e,
            Err(e) => {
                return Err(e);
            },
        };
        loop
            invariant
                self.wf(),
                self.tokens() == ts,
                ts == old(self).tokens(),
                start == old(self).position(),
                start < self.pos,
                product_rest(ts, self.pos as int, left@) == product(ts, start),
            ensures
                product(ts, start) == Ok::<(ExprView, int), ErrorView>((left@, self.pos as int)),
            decreases self.tokens.len() - self.pos,
        {
            let op = match self.current() {
                Some(Token::Star) => BinOp::Mul,
                Some(Token::Slash) => BinOp::Div,
                Some(Token::IntDiv) => BinOp::IntDiv,
                Some(Token::Mod) => BinOp::Mod,
                _ => {
                    break ;
                },
            };
            proof {
                lemma_expression_advances(ts, self.pos + 1);
            }
            self.advance();
            let right = match self.parse_factor() {
                Ok(e) => e,
                Err(e) => {
                    return Err(e);
                },
            };
            left = Expr::Binary { left: Box::new(left), op, right: Box::new(right) };
        }
        Ok(left)
    }

    /// Parses a factor: a literal, a variable, an expression in brackets, or
    /// a minus sign before a factor.
    fn parse_factor(&mut self) -> (r: Result<Expr, PalladError>)
        requires
            old(self).wf(),
        ensures
            final(self).wf(),
            final(self).tokens() == old(self).tokens(),
            parsed_view(r, final(self).position()) == factor(
                old(self).tokens(),
                old(self).position(),
            ),
        decreases old(self).tokens().len() - old(self).position(), 0nat,
    {
        let token = match self.current() {
            Some(t) => t.clone(),
            None => {
                return Err(self.fail("integer, float, variable, or '('"));
            },
        };
        match token {
            Token::Minus => {
                self.advance();
                match self.parse_factor() {
                    Ok(operand) => {
                        let zero = Expr::Int(0);
                        assert(zero@ == ExprView::Int(0));
                        Ok(
                            Expr::Binary {
                                left: Box::new(zero),
                                op: BinOp::Sub,
                                right: Box::new(operand),
                            },
                        )
                    },
                    Err(e) => Err(e),
                }
            },
            Token::Int(n) => {
                self.advance();
                Ok(Expr::Int(n))
            },
            Token::Float(text) => {
                self.advance();
                Ok(Expr::Float(text))
            },
            Token::Str(s) => {
                self.advance();
                Ok(Expr::Str(s))
            },
            Token::Ident(name) => {
                self.advance();
                Ok(Expr::Var(name))
            },
            Token::LParen => {
                self.advance();
                let inner = match self.parse_expr() {
                    Ok(e) => e,
                    Err(e) => {
                        return Err(e);
                    },
                };
                match self.current() {
                    Some(Token::RParen) => {
                        self.advance();
                        Ok(inner)
                    },
                    _ => Err(self.fail("')'")),
                }
            },
            _ => Err(self.fail("integer, float, variable, or '('")),
        }
    }
}

} // verus!
