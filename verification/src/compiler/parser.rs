//! The recursive-descent parser: from the token stream to a `TokenNode` tree.
//!
//! The meaning of every parsing function is given by a spec function of the
//! same name with the prefix `parse_`, over the token sequence, the line
//! table and the cursor position. It says whether the parser builds a tree
//! (and where the cursor is left), reports an error (and where the cursor is
//! left), or would read past the end of the token stream (`Outcome::Stuck`),
//! which the executable functions rule out in their `requires`.
use vstd::prelude::*;

use crate::compiler::error::{RhErr, ET};
use crate::compiler::lexer::{LineNumHandler, RhTypes, Token};

verus! {

/// The kind of block a statement stands in.
#[derive(Debug, Clone, Copy, PartialEq, Eq, Structural)]
pub enum ScopeType {
    Function(RhTypes),
    While,
    Program,
    If,
    Loop,
    For,
}

/// The operator of an assignment, as the code generator reads it.
#[derive(Debug, Clone, Copy, PartialEq, Eq, Structural)]
pub enum AssignmentOpType {
    Eq,
    AddEq,
    SubEq,
    MulEq,
    DivEq,
    BOrEq,
    BAndEq,
    BXorEq,
}

/// The kinds of node of the syntax tree.
#[derive(Debug)]
pub enum NodeType {
    Program,
    Sub,
    Div,
    Eq,
    Id(String),
    EqCmp,
    NeqCmp,
    BOr,
    BAnd,
    BXor,
    BOrEq,
    BAndEq,
    BXorEq,
    SubEq,
    AddEq,
    DivEq,
    MulEq,
    Mul,
    MNeg,
    AndCmp,
    OrCmp,
    NumLiteral(i32),
    Add,
    If,
    For,
    While,
    Loop,
    Break,
    Return,
    FunctionCall(String),
    Scope(Option<RhTypes>),
    Condition(bool),
    /// An assignment statement as the parser builds it, with the target's
    /// name.
    Assignment(String),
    /// An assignment as the code generator reads it, with its operator.
    AssignmentOp(AssignmentOpType),
    Declaration((String, RhTypes)),
    Asm(String),
    FunctionDecaration((String, RhTypes)),
    Type(RhTypes),
    DeRef,
    Adr(String),
    Array,
    PutChar,
    Assert,
}

impl Clone for NodeType {
    fn clone(&self) -> (res: Self)
        ensures
            res == *self,
    {
        match self {
            NodeType::Program => NodeType::Program,
            NodeType::Sub => NodeType::Sub,
            NodeType::Div => NodeType::Div,
            NodeType::Eq => NodeType::Eq,
            NodeType::Id(s) => NodeType::Id(s.clone()),
            NodeType::EqCmp => NodeType::EqCmp,
            NodeType::NeqCmp => NodeType::NeqCmp,
            NodeType::BOr => NodeType::BOr,
            NodeType::BAnd => NodeType::BAnd,
            NodeType::BXor => NodeType::BXor,
            NodeType::BOrEq => NodeType::BOrEq,
            NodeType::BAndEq => NodeType::BAndEq,
            NodeType::BXorEq => NodeType::BXorEq,
            NodeType::SubEq => NodeType::SubEq,
            NodeType::AddEq => NodeType::AddEq,
            NodeType::DivEq => NodeType::DivEq,
            NodeType::MulEq => NodeType::MulEq,
            NodeType::Mul => NodeType::Mul,
            NodeType::MNeg => NodeType::MNeg,
            NodeType::AndCmp => NodeType::AndCmp,
            NodeType::OrCmp => NodeType::OrCmp,
            NodeType::NumLiteral(n) => NodeType::NumLiteral(*n),
            NodeType::Add => NodeType::Add,
            NodeType::If => NodeType::If,
            NodeType::For => NodeType::For,
            NodeType::While => NodeType::While,
            NodeType::Loop => NodeType::Loop,
            NodeType::Break => NodeType::Break,
            NodeType::Return => NodeType::Return,
            NodeType::FunctionCall(s) => NodeType::FunctionCall(s.clone()),
            NodeType::Scope(t) => NodeType::Scope(*t),
            NodeType::Condition(b) => NodeType::Condition(*b),
            NodeType::Assignment(s) => NodeType::Assignment(s.clone()),
            NodeType::AssignmentOp(op) => NodeType::AssignmentOp(*op),
            NodeType::Declaration((s, t)) => NodeType::Declaration((s.clone(), *t)),
            NodeType::Asm(s) => NodeType::Asm(s.clone()),
            NodeType::FunctionDecaration((s, t)) => NodeType::FunctionDecaration((s.clone(), *t)),
            NodeType::Type(t) => NodeType::Type(*t),
            NodeType::DeRef => NodeType::DeRef,
            NodeType::Adr(s) => NodeType::Adr(s.clone()),
            NodeType::Array => NodeType::Array,
            NodeType::PutChar => NodeType::PutChar,
            NodeType::Assert => NodeType::Assert,
        }
    }
}

/// The node kind that stands for an operator token, for the tokens that
/// have one.
pub open spec fn node_of_token(tok: Token) -> Result<NodeType, ()> {
    match tok {
        Token::Sub => Ok(NodeType::Sub),
        Token::Div => Ok(NodeType::Div),
        Token::Eq => Ok(NodeType::Eq),
        Token::Id(s) => Ok(NodeType::Id(s)),
        Token::EqCmp => Ok(NodeType::EqCmp),
        Token::NeqCmp => Ok(NodeType::NeqCmp),
        Token::BOr => Ok(NodeType::BOr),
        Token::BAnd => Ok(NodeType::BAnd),
        Token::BXor => Ok(NodeType::BXor),
        Token::BOrEq => Ok(NodeType::BOrEq),
        Token::BAndEq => Ok(NodeType::BAndEq),
        Token::BXorEq => Ok(NodeType::BXorEq),
        Token::SubEq => Ok(NodeType::SubEq),
        Token::AddEq => Ok(NodeType::AddEq),
        Token::DivEq => Ok(NodeType::DivEq),
        Token::MulEq => Ok(NodeType::MulEq),
        Token::Star => Ok(NodeType::Mul),
        Token::NumLiteral(i) => Ok(NodeType::NumLiteral(i)),
        Token::Add => Ok(NodeType::Add),
        Token::For => Ok(NodeType::For),
        Token::While => Ok(NodeType::While),
        Token::If => Ok(NodeType::If),
        Token::Break => Ok(NodeType::Break),
        _ => Err(()),
    }
}

impl NodeType {
    fn from_token(tok: Token) -> (res: Result<NodeType, ()>)
        ensures
            res == node_of_token(tok),
    {
        match tok {
            Token::Sub => Ok(NodeType::Sub),
            Token::Div => Ok(NodeType::Div),
            Token::Eq => Ok(NodeType::Eq),
            Token::Id(s) => Ok(NodeType::Id(s)),
            Token::EqCmp => Ok(NodeType::EqCmp),
            Token::NeqCmp => Ok(NodeType::NeqCmp),
            Token::BOr => Ok(NodeType::BOr),
            Token::BAnd => Ok(NodeType::BAnd),
            Token::BXor => Ok(NodeType::BXor),
            Token::BOrEq => Ok(NodeType::BOrEq),
            Token::BAndEq => Ok(NodeType::BAndEq),
            Token::BXorEq => Ok(NodeType::BXorEq),
            Token::SubEq => Ok(NodeType::SubEq),
            Token::AddEq => Ok(NodeType::AddEq),
            Token::DivEq => Ok(NodeType::DivEq),
            Token::MulEq => Ok(NodeType::MulEq),
            Token::Star => Ok(NodeType::Mul),
            Token::NumLiteral(i) => Ok(NodeType::NumLiteral(i)),
            Token::Add => Ok(NodeType::Add),
            Token::For => Ok(NodeType::For),
            Token::While => Ok(NodeType::While),
            Token::If => Ok(NodeType::If),
            Token::Break => Ok(NodeType::Break),
            _ => Err(()),
        }
    }
}

/// The token stream with a cursor, and the source line of every token.
pub struct TokenHandler {
    tokens: Vec<Token>,
    curr_token: usize,
    token_lines: Vec<i32>,
}

impl TokenHandler {
    /// The tokens.
    pub closed spec fn toks(&self) -> Seq<Token> {
        self.tokens@
    }

    /// The cursor: the index of the current token.
    pub closed spec fn pos(&self) -> int {
        self.curr_token as int
    }

    /// The source line of each token.
    pub closed spec fn lines(&self) -> Seq<i32> {
        self.token_lines@
    }

    pub fn new(tokens: Vec<Token>, line_tracker: LineNumHandler) -> (res: Self)
        ensures
            res.toks() == tokens@,
            res.pos() == 0,
            res.lines() == line_tracker.token_lines@,
    {
        TokenHandler { tokens, curr_token: 0, token_lines: line_tracker.token_lines }
    }

    pub fn next_token(&mut self)
        requires
            old(self).pos() < usize::MAX,
        ensures
            final(self).pos() == old(self).pos() + 1,
            final(self).pos() >= 1,
            final(self).toks() == old(self).toks(),
            final(self).lines() == old(self).lines(),
    {
        self.curr_token += 1;
    }

    /// The token `i` places after the current one.
    pub fn peek(&self, i: usize) -> (res: Token)
        requires
            self.pos() + i < self.toks().len(),
        ensures
            res == self.toks()[self.pos() + i],
    {
        proof {
            assert(self.curr_token + i < self.tokens.len());
        }
        self.tokens[self.curr_token + i].clone()
    }

    pub fn prev_token(&mut self)
        requires
            old(self).pos() > 0,
        ensures
            final(self).pos() == old(self).pos() - 1,
            final(self).pos() >= 0,
            final(self).toks() == old(self).toks(),
            final(self).lines() == old(self).lines(),
    {
        self.curr_token -= 1;
    }

    pub fn get_token(&self) -> (res: &Token)
        requires
            self.pos() < self.toks().len(),
        ensures
            *res == self.toks()[self.pos()],
    {
        &self.tokens[self.curr_token]
    }

    pub fn get_prev_token(&self) -> (res: &Token)
        requires
            1 <= self.pos() <= self.toks().len(),
        ensures
            *res == self.toks()[self.pos() - 1],
    {
        &self.tokens[self.curr_token - 1]
    }

    pub fn len(&self) -> (res: usize)
        ensures
            res == self.toks().len(),
    {
        self.tokens.len()
    }

    /// An error of kind `err` at the line of the current token.
    pub fn new_err(&self, err: ET) -> (res: RhErr)
        requires
            self.pos() < self.lines().len(),
        ensures
            res == (RhErr { err, line: self.lines()[self.pos()] }),
    {
        RhErr { err, line: self.token_lines[self.curr_token] }
    }

    /// The current token, or `None` where the cursor is past the last one.
    fn current(&self) -> (res: Option<&Token>)
        ensures
            res matches Some(t) ==> live(self.toks(), self.pos()) && *t == self.toks()[self.pos()],
            res is None ==> !live(self.toks(), self.pos()),
    {
        if self.curr_token < self.tokens.len() {
            Some(&self.tokens[self.curr_token])
        } else {
            None
        }
    }

    /// The token `i` places after the current one, or `None` past the last
    /// one.
    fn ahead(&self, i: usize) -> (res: Option<Token>)
        ensures
            res matches Some(t) ==> live(self.toks(), self.pos() + i) && t == self.toks()[self.pos() + i],
            res is None ==> !live(self.toks(), self.pos() + i),
    {
        if i < self.tokens.len() && self.curr_token < self.tokens.len() - i {
            Some(self.tokens[self.curr_token + i].clone())
        } else {
            None
        }
    }

    /// The error `e` at the current token, as `err` states it: `None` where
    /// the line of the current token is not recorded.
    fn fail_here(&self, e: ET) -> (res: Option<Result<TokenNode, RhErr>>)
        ensures
            match err(self.lines(), e, self.pos()) {
                Outcome::Failed(x, _) => res == Some(Err::<TokenNode, RhErr>(x)),
                _ => res is None,
            },
    {
        if self.curr_token < self.token_lines.len() {
            Some(Err(RhErr { err: e, line: self.token_lines[self.curr_token] }))
        } else {
            None
        }
    }
}

/// The cursor never stands before the first token, nor past `usize::MAX`.
pub broadcast proof fn lemma_cursor_bounds(th: TokenHandler)
    ensures
        0 <= #[trigger] th.pos() <= usize::MAX,
{
}

/// A node of the syntax tree: its kind, and its children if it has any.
#[derive(Debug)]
pub struct TokenNode {
    pub token: NodeType,
    pub children: Option<Vec<TokenNode>>,
}

/// The mathematical form of a syntax tree.
pub struct Tree {
    pub token: NodeType,
    pub children: Option<Seq<Tree>>,
}

pub open spec fn node_tree(n: TokenNode) -> Tree
    decreases n,
{
    Tree {
        token: n.token,
        children: match n.children {
            Some(v) => Some(trees(v@)),
            None => None,
        },
    }
}

pub open spec fn trees(s: Seq<TokenNode>) -> Seq<Tree>
    decreases s,
{
    if s.len() == 0 {
        Seq::empty()
    } else {
        trees(s.drop_last()).push(node_tree(s.last()))
    }
}

impl View for TokenNode {
    type V = Tree;

    open spec fn view(&self) -> Tree {
        node_tree(*self)
    }
}

/// A copy of `n`, children included.
fn clone_node(n: &TokenNode) -> (res: TokenNode)
    ensures
        res@ == n@,
    decreases n, 0int,
{
    match &n.children {
        None => TokenNode { token: n.token.clone(), children: None },
        Some(v) => {
            let copies = clone_nodes(v);
            TokenNode { token: n.token.clone(), children: Some(copies) }
        },
    }
}

/// Copies of the nodes of `v`, in order.
fn clone_nodes(v: &Vec<TokenNode>) -> (res: Vec<TokenNode>)
    ensures
        trees(res@) == trees(v@),
    decreases v, 1int,
{
    let mut out: Vec<TokenNode> = Vec::new();
    let mut i: usize = 0;
    assert(trees(out@) =~= trees(v@.subrange(0, 0)));
    while i < v.len()
        invariant
            i <= v.len(),
            trees(out@) == trees(v@.subrange(0, i as int)),
        decreases v.len() - i,
    {
        let c = clone_node(&v[i]);
        proof {
            lemma_trees_push(out@, c);
            lemma_trees_push(v@.subrange(0, i as int), v@[i as int]);
            assert(v@.subrange(0, i as int).push(v@[i as int]) =~= v@.subrange(0, i + 1));
        }
        out.push(c);
        i = i + 1;
    }
    assert(v@.subrange(0, v.len() as int) =~= v@);
    out
}

impl Clone for TokenNode {
    fn clone(&self) -> (res: Self)
        ensures
            res@ == self@,
    {
        clone_node(self)
    }
}

pub proof fn lemma_trees_push(s: Seq<TokenNode>, x: TokenNode)
    ensures
        trees(s.push(x)) == trees(s).push(x@),
{
    assert(s.push(x).drop_last() =~= s);
}

pub proof fn lemma_trees_index(s: Seq<TokenNode>)
    ensures
        trees(s).len() == s.len(),
        forall|i: int| 0 <= i < s.len() ==> #[trigger] trees(s)[i] == s[i]@,
    decreases s.len(),
{
    if s.len() > 0 {
        lemma_trees_index(s.drop_last());
        assert forall|i: int| 0 <= i < s.len() implies #[trigger] trees(s)[i] == s[i]@ by {
            if i < s.len() - 1 {
                assert(s.drop_last()[i] == s[i]);
            }
        }
    }
}

impl TokenNode {
    pub fn new(token: NodeType, children: Option<Vec<TokenNode>>) -> (res: TokenNode)
        ensures
            res.token == token,
            res.children == children,
    {
        TokenNode { token, children }
    }
}


/// What a parsing function does on the tokens from a cursor position.
pub enum Outcome {
    /// It builds the tree and leaves the cursor at the position.
    Parsed(Tree, int),
    /// It reports the error and leaves the cursor at the position.
    Failed(RhErr, int),
    /// It panics: it would read a token or a line number past the end of
    /// the input, or make a node of a token that is no node kind.
    Stuck,
}

pub open spec fn leaf(token: NodeType) -> Tree {
    Tree { token, children: None }
}

pub open spec fn branch(token: NodeType, children: Seq<Tree>) -> Tree {
    Tree { token, children: Some(children) }
}

/// The number of tokens from `p` to the end.
pub open spec fn rem(toks: Seq<Token>, p: int) -> nat {
    if 0 <= p < toks.len() {
        (toks.len() - p) as nat
    } else {
        0
    }
}

/// The error `e` reported at the token `p`.
pub open spec fn err(lines: Seq<i32>, e: ET, p: int) -> Outcome {
    if 0 <= p < lines.len() {
        Outcome::Failed(RhErr { err: e, line: lines[p] }, p)
    } else {
        Outcome::Stuck
    }
}

/// Whether there is a token at `p`.
pub open spec fn live(toks: Seq<Token>, p: int) -> bool {
    0 <= p < toks.len()
}

/// A parse result with the cursor moved to `p`.
pub open spec fn moved(o: Outcome, p: int) -> Outcome {
    match o {
        Outcome::Parsed(t, _) => Outcome::Parsed(t, p),
        Outcome::Failed(e, _) => Outcome::Failed(e, p),
        Outcome::Stuck => Outcome::Stuck,
    }
}

/// A block: statements up to the closing brace, or up to the last token.
/// `acc` holds the statements already parsed.
pub open spec fn parse_scope_from(
    toks: Seq<Token>,
    lines: Seq<i32>,
    p: int,
    st: ScopeType,
    acc: Seq<Tree>,
) -> Outcome
    decreases rem(toks, p), 9int,
{
    if !live(toks, p) {
        Outcome::Stuck
    } else if toks[p] is CCurl {
        if p < 1 {
            Outcome::Stuck
        } else {
            let ty = if toks[p - 1] is Semi {
                Some(RhTypes::Int)
            } else {
                None
            };
            Outcome::Parsed(branch(NodeType::Scope(ty), acc), p)
        }
    } else {
        match parse_statement(toks, lines, p, st) {
            Outcome::Parsed(t, q) => {
                if q < p {
                    Outcome::Stuck
                } else if q == toks.len() - 1 {
                    Outcome::Parsed(branch(NodeType::Scope(None), acc.push(t)), q)
                } else {
                    parse_scope_from(toks, lines, q + 1, st, acc.push(t))
                }
            },
            other => other,
        }
    }
}

/// A block starting at `p`.
pub open spec fn parse_scope(toks: Seq<Token>, lines: Seq<i32>, p: int, st: ScopeType) -> Outcome {
    parse_scope_from(toks, lines, p, st, Seq::empty())
}

/// A statement, chosen by its first token.
pub open spec fn parse_statement(toks: Seq<Token>, lines: Seq<i32>, p: int, st: ScopeType) -> Outcome
    decreases rem(toks, p), 8int,
{
    if !live(toks, p) {
        Outcome::Stuck
    } else {
        match toks[p] {
            Token::Type(t) => parse_type_statement(toks, lines, p, t),
            Token::Id(name) => parse_id_statement(toks, lines, p, name),
            Token::If => parse_if_statement(toks, lines, p),
            Token::While => parse_while_statement(toks, lines, p),
            Token::For => parse_for_statement(toks, lines, p),
            Token::Break => {
                if st == ScopeType::While || st == ScopeType::Loop {
                    Outcome::Parsed(leaf(NodeType::Break), p)
                } else {
                    err(lines, ET::ExpectedStatement, p)
                }
            },
            Token::Asm => parse_asm_statement(toks, lines, p),
            _ => err(lines, ET::ExpectedStatement, p),
        }
    }
}

/// `type name` with an optional `= expression`; the type token is at `p`.
pub open spec fn parse_declaration(toks: Seq<Token>, lines: Seq<i32>, p: int, t: RhTypes) -> Outcome
    decreases rem(toks, p), 5int,
{
    if !live(toks, p) || !live(toks, p + 1) {
        Outcome::Stuck
    } else {
        match toks[p + 1] {
            Token::Id(id) => {
                if !live(toks, p + 2) {
                    Outcome::Stuck
                } else if toks[p + 2] is Eq {
                    match parse_expression(toks, lines, p + 3) {
                        Outcome::Parsed(e, r) => Outcome::Parsed(
                            branch(NodeType::Declaration((id, t)), seq![e]),
                            r,
                        ),
                        other => other,
                    }
                } else {
                    Outcome::Parsed(branch(NodeType::Declaration((id, t)), Seq::empty()), p + 2)
                }
            },
            _ => err(lines, ET::ExpectedId, p + 1),
        }
    }
}

/// A declaration followed by a semicolon.
pub open spec fn parse_declaration_statement(
    toks: Seq<Token>,
    lines: Seq<i32>,
    p: int,
    t: RhTypes,
) -> Outcome
    decreases rem(toks, p), 6int,
{
    if !live(toks, p) {
        Outcome::Stuck
    } else {
        let d = parse_declaration(toks, lines, p, t);
        match d {
            Outcome::Stuck => Outcome::Stuck,
            Outcome::Parsed(_, q) | Outcome::Failed(_, q) => {
                if !live(toks, q + 1) {
                    Outcome::Stuck
                } else if !(toks[q + 1] is Semi) {
                    err(lines, ET::ExpectedSemi, q + 1)
                } else {
                    moved(d, q + 1)
                }
            },
        }
    }
}

/// A sum: a term, where a `+` or `-` after it is reported as an error,
/// because the parser reads the operator itself as the next term.
pub open spec fn parse_expression(toks: Seq<Token>, lines: Seq<i32>, p: int) -> Outcome
    decreases rem(toks, p), 4int,
{
    if !live(toks, p) {
        Outcome::Stuck
    } else {
        match parse_term(toks, lines, p) {
            Outcome::Parsed(l, q) => {
                if !live(toks, q + 1) {
                    Outcome::Stuck
                } else if !(toks[q + 1] is Add || toks[q + 1] is Sub) {
                    Outcome::Parsed(l, q)
                } else {
                    err(lines, ET::ExpectedExpression, q + 1)
                }
            },
            other => other,
        }
    }
}

/// A product: a factor, optionally followed by `*` or `/` and one more factor.
pub open spec fn parse_term(toks: Seq<Token>, lines: Seq<i32>, p: int) -> Outcome
    decreases rem(toks, p), 3int,
{
    if !live(toks, p) {
        Outcome::Stuck
    } else {
        match parse_factor(toks, lines, p) {
            Outcome::Parsed(l, q) => {
                if q < p || !live(toks, q + 1) {
                    Outcome::Stuck
                } else if !(toks[q + 1] is Star || toks[q + 1] is Div) {
                    Outcome::Parsed(l, q)
                } else {
                    match parse_factor(toks, lines, q + 2) {
                        Outcome::Parsed(r, s) => Outcome::Parsed(
                            branch(node_of_token(toks[q + 1])->Ok_0, seq![l, r]),
                            s,
                        ),
                        other => other,
                    }
                }
            },
            other => other,
        }
    }
}

/// A number, a name, or an expression in parentheses.
pub open spec fn parse_factor(toks: Seq<Token>, lines: Seq<i32>, p: int) -> Outcome
    decreases rem(toks, p), 2int,
{
    if !live(toks, p) {
        Outcome::Stuck
    } else {
        match toks[p] {
            Token::NumLiteral(n) => Outcome::Parsed(leaf(NodeType::NumLiteral(n)), p),
            Token::Id(id) => Outcome::Parsed(leaf(NodeType::Id(id)), p),
            Token::OParen => match parse_expression(toks, lines, p + 1) {
                Outcome::Parsed(n, q) => {
                    if !live(toks, q) {
                        Outcome::Stuck
                    } else if toks[q] is CParen {
                        Outcome::Parsed(n, q)
                    } else {
                        err(lines, ET::ExpectedCParen, q)
                    }
                },
                other => other,
            },
            _ => err(lines, ET::ExpectedExpression, p),
        }
    }
}

/// `name op expression ;`; the token after the name is at `p`.
///
/// That token is skipped, whatever it is. The node is `Assignment(name)`;
/// its children are a leaf made from the first token of the value, then
/// the value. Where that first token is no node kind, making the leaf
/// panics.
pub open spec fn parse_assignment(toks: Seq<Token>, lines: Seq<i32>, p: int, name: String) -> Outcome
    decreases rem(toks, p), 5int,
{
    if !live(toks, p) || !live(toks, p + 1) {
        Outcome::Stuck
    } else {
        match node_of_token(toks[p + 1]) {
            Err(_) => Outcome::Stuck,
            Ok(first) => match parse_expression(toks, lines, p + 1) {
                Outcome::Parsed(e, q) => {
                    if !live(toks, q + 1) {
                        Outcome::Stuck
                    } else if toks[q + 1] is Semi {
                        Outcome::Parsed(
                            branch(NodeType::Assignment(name), seq![leaf(first), e]),
                            q + 1,
                        )
                    } else {
                        err(lines, ET::ExpectedSemi, q + 1)
                    }
                },
                other => other,
            },
        }
    }
}

/// `while condition {` then a block; the `while` token is at `p`.
pub open spec fn parse_while_statement(toks: Seq<Token>, lines: Seq<i32>, p: int) -> Outcome
    decreases rem(toks, p), 7int,
{
    if !live(toks, p) {
        Outcome::Stuck
    } else {
        match parse_condition(toks, lines, p + 1) {
            Outcome::Parsed(c, r) => {
                if r < p {
                    Outcome::Stuck
                } else {
                    match parse_scope_from(toks, lines, r + 2, ScopeType::While, Seq::empty()) {
                        Outcome::Parsed(b, u) => Outcome::Parsed(branch(NodeType::While, seq![c, b]), u),
                        other => other,
                    }
                }
            },
            other => other,
        }
    }
}

/// `if condition {` then a block; the `if` token is at `p`.
pub open spec fn parse_if_statement(toks: Seq<Token>, lines: Seq<i32>, p: int) -> Outcome
    decreases rem(toks, p), 7int,
{
    if !live(toks, p) {
        Outcome::Stuck
    } else {
        match parse_condition(toks, lines, p + 1) {
            Outcome::Parsed(c, r) => {
                if r < p {
                    Outcome::Stuck
                } else {
                    match parse_scope_from(toks, lines, r + 2, ScopeType::If, Seq::empty()) {
                        Outcome::Parsed(b, u) => Outcome::Parsed(branch(NodeType::If, seq![c, b]), u),
                        other => other,
                    }
                }
            },
            other => other,
        }
    }
}

/// `type name ( type param ) {` then a block; the return type token is at
/// `p`. Exactly one parameter is accepted, and a `->` after the parameter
/// list is reported as an error.
pub open spec fn parse_function_declare_statement(
    toks: Seq<Token>,
    lines: Seq<i32>,
    p: int,
    ty: RhTypes,
) -> Outcome
    decreases rem(toks, p), 6int,
{
    if !live(toks, p) || !live(toks, p + 1) {
        Outcome::Stuck
    } else {
        match toks[p + 1] {
            Token::Id(id) => {
                if !live(toks, p + 2) {
                    Outcome::Stuck
                } else if !(toks[p + 2] is OParen) {
                    err(lines, ET::ExpectedCParen, p + 2)
                } else if !live(toks, p + 3) {
                    Outcome::Stuck
                } else {
                    match toks[p + 3] {
                        Token::Type(t) => match parse_declaration(toks, lines, p + 3, t) {
                            Outcome::Parsed(d, s) => {
                                if s < p || !live(toks, s) {
                                    Outcome::Stuck
                                } else if toks[s] is Comma {
                                    err(lines, ET::ExpectedType, s)
                                } else if !(toks[s] is CParen) {
                                    err(lines, ET::ExpectedCParen, s)
                                } else if !live(toks, s + 1) {
                                    Outcome::Stuck
                                } else if toks[s + 1] is Arrow {
                                    if !live(toks, s + 2) {
                                        Outcome::Stuck
                                    } else {
                                        err(lines, ET::ExpectedType, s + 2)
                                    }
                                } else {
                                    match parse_scope_from(
                                        toks,
                                        lines,
                                        s + 2,
                                        ScopeType::Function(ty),
                                        Seq::empty(),
                                    ) {
                                        Outcome::Parsed(b, u) => Outcome::Parsed(
                                            branch(NodeType::FunctionDecaration((id, ty)), seq![d, b]),
                                            u,
                                        ),
                                        other => other,
                                    }
                                }
                            },
                            other => other,
                        },
                        _ => err(lines, ET::ExpectedType, p + 3),
                    }
                }
            },
            _ => err(lines, ET::ExpectedId, p + 1),
        }
    }
}

/// A function call followed by a semicolon.
pub open spec fn parse_function_call_statement(
    toks: Seq<Token>,
    lines: Seq<i32>,
    p: int,
    name: String,
) -> Outcome
    decreases rem(toks, p), 6int,
{
    if !live(toks, p) {
        Outcome::Stuck
    } else {
        match parse_function_call(toks, lines, p, name) {
            Outcome::Parsed(n, q) => {
                if !live(toks, q + 1) {
                    Outcome::Stuck
                } else if toks[q + 1] is Semi {
                    Outcome::Parsed(n, q + 1)
                } else {
                    err(lines, ET::ExpectedSemi, q + 1)
                }
            },
            other => other,
        }
    }
}

/// `( expression )` after a function name; the `(` is at `p`. Exactly one
/// argument is accepted: a comma after it is reported as an error.
pub open spec fn parse_function_call(toks: Seq<Token>, lines: Seq<i32>, p: int, name: String) -> Outcome
    decreases rem(toks, p), 5int,
{
    if !live(toks, p) {
        Outcome::Stuck
    } else {
        match parse_expression(toks, lines, p + 1) {
            Outcome::Parsed(a, s) => {
                if !live(toks, s + 1) {
                    Outcome::Stuck
                } else if toks[s + 1] is Comma {
                    err(lines, ET::ExpectedExpression, s + 1)
                } else if toks[s + 1] is CParen {
                    Outcome::Parsed(branch(NodeType::FunctionCall(name), seq![a]), s + 1)
                } else {
                    err(lines, ET::ExpectedCParen, s + 1)
                }
            },
            other => other,
        }
    }
}

/// A statement starting with a name: a call if `(` follows, else an assignment.
pub open spec fn parse_id_statement(toks: Seq<Token>, lines: Seq<i32>, p: int, id: String) -> Outcome
    decreases rem(toks, p), 7int,
{
    if !live(toks, p) || !live(toks, p + 1) {
        Outcome::Stuck
    } else if toks[p + 1] is OParen {
        parse_function_call_statement(toks, lines, p + 1, id)
    } else {
        parse_assignment(toks, lines, p + 1, id)
    }
}

/// A statement starting with a type: a function declaration if the token
/// two places on is `(`, else a declaration.
pub open spec fn parse_type_statement(toks: Seq<Token>, lines: Seq<i32>, p: int, t: RhTypes) -> Outcome
    decreases rem(toks, p), 7int,
{
    if !live(toks, p) || !live(toks, p + 2) {
        Outcome::Stuck
    } else if toks[p + 2] is OParen {
        parse_function_declare_statement(toks, lines, p, t)
    } else {
        parse_declaration_statement(toks, lines, p, t)
    }
}

/// `( condition )`; the `(` is at `p`.
pub open spec fn parse_condition(toks: Seq<Token>, lines: Seq<i32>, p: int) -> Outcome
    decreases rem(toks, p), 5int,
{
    if !live(toks, p) {
        Outcome::Stuck
    } else if toks[p] is OParen {
        let c = parse_condition_expr(toks, lines, p + 1);
        match c {
            Outcome::Stuck => Outcome::Stuck,
            Outcome::Parsed(_, q) | Outcome::Failed(_, q) => {
                if !live(toks, q) {
                    Outcome::Stuck
                } else if toks[q] is CParen {
                    c
                } else {
                    err(lines, ET::ExpectedCParen, q)
                }
            },
        }
    } else {
        err(lines, ET::ExpectedOParen, p)
    }
}

/// A comparison chain, where an `&&` or `||` after it is reported as an
/// error, because the parser reads the operator itself as the next operand.
pub open spec fn parse_condition_expr(toks: Seq<Token>, lines: Seq<i32>, p: int) -> Outcome
    decreases rem(toks, p), 4int,
{
    if !live(toks, p) {
        Outcome::Stuck
    } else {
        match parse_condition_term(toks, lines, p) {
            Outcome::Parsed(l, q) => {
                if !live(toks, q + 1) {
                    Outcome::Stuck
                } else if !(toks[q + 1] is AndCmp || toks[q + 1] is OrCmp) {
                    Outcome::Parsed(l, q)
                } else {
                    err(lines, ET::ExpectedCondition, q + 1)
                }
            },
            other => other,
        }
    }
}

/// Whether a token is `==` or `!=`.
pub open spec fn is_cmp(t: Token) -> bool {
    t is EqCmp || t is NeqCmp
}

/// A condition factor, then any number of `==` or `!=` with another factor,
/// grouped to the left. After a comparison the cursor is left on the token
/// after its right operand.
pub open spec fn parse_condition_term(toks: Seq<Token>, lines: Seq<i32>, p: int) -> Outcome
    decreases rem(toks, p), 3int,
{
    if !live(toks, p) {
        Outcome::Stuck
    } else {
        match parse_condition_factor(toks, lines, p) {
            Outcome::Parsed(l, q) => {
                if q < p || !live(toks, q + 1) {
                    Outcome::Stuck
                } else if !is_cmp(toks[q + 1]) {
                    Outcome::Parsed(l, q)
                } else {
                    parse_comparisons(toks, lines, l, q + 1)
                }
            },
            other => other,
        }
    }
}

/// The comparisons of a condition term from the operator at `o` on, with
/// `left` the comparison chain so far.
pub open spec fn parse_comparisons(toks: Seq<Token>, lines: Seq<i32>, left: Tree, o: int) -> Outcome
    decreases rem(toks, o), 3int,
{
    if !live(toks, o) {
        Outcome::Stuck
    } else {
        match parse_condition_factor(toks, lines, o + 1) {
            Outcome::Parsed(r, s) => {
                let joined = branch(node_of_token(toks[o])->Ok_0, seq![left, r]);
                if s < o || !live(toks, s + 1) {
                    Outcome::Stuck
                } else if is_cmp(toks[s + 1]) {
                    parse_comparisons(toks, lines, joined, s + 1)
                } else {
                    Outcome::Parsed(joined, s + 1)
                }
            },
            other => other,
        }
    }
}

/// A number, a name, or an expression in parentheses, inside a condition.
pub open spec fn parse_condition_factor(toks: Seq<Token>, lines: Seq<i32>, p: int) -> Outcome
    decreases rem(toks, p), 2int,
{
    if !live(toks, p) {
        Outcome::Stuck
    } else {
        match toks[p] {
            Token::NumLiteral(n) => Outcome::Parsed(leaf(NodeType::NumLiteral(n)), p),
            Token::Id(id) => Outcome::Parsed(leaf(NodeType::Id(id)), p),
            Token::OParen => match parse_expression(toks, lines, p + 1) {
                Outcome::Parsed(n, q) => {
                    if !live(toks, q) {
                        Outcome::Stuck
                    } else if toks[q] is CParen {
                        Outcome::Parsed(n, q)
                    } else {
                        err(lines, ET::ExpectedCParen, q)
                    }
                },
                other => other,
            },
            _ => err(lines, ET::ExpectedCondition, p),
        }
    }
}

/// `asm ( "text" ) ;`; the `asm` token is at `p`.
pub open spec fn parse_asm_statement(toks: Seq<Token>, lines: Seq<i32>, p: int) -> Outcome {
    if !live(toks, p) || !live(toks, p + 1) {
        Outcome::Stuck
    } else if !(toks[p + 1] is OParen) {
        err(lines, ET::ExpectedOParen, p + 1)
    } else if !live(toks, p + 2) {
        Outcome::Stuck
    } else {
        match toks[p + 2] {
            Token::StrLiteral(text) => {
                if !live(toks, p + 3) {
                    Outcome::Stuck
                } else if !(toks[p + 3] is CParen) {
                    err(lines, ET::ExpectedCParen, p + 3)
                } else if !live(toks, p + 4) {
                    Outcome::Stuck
                } else if !(toks[p + 4] is Semi) {
                    err(lines, ET::ExpectedSemi, p + 4)
                } else {
                    Outcome::Parsed(leaf(NodeType::Asm(text)), p + 4)
                }
            },
            _ => err(lines, ET::ExpectedStrLiteral, p + 2),
        }
    }
}

/// `type name = e ; ( condition ) statement`, read from a type token at `p`.
/// The node it builds is an `If` node.
pub open spec fn parse_for_statement(toks: Seq<Token>, lines: Seq<i32>, p: int) -> Outcome
    decreases rem(toks, p), 7int,
{
    if !live(toks, p) {
        Outcome::Stuck
    } else {
        match toks[p] {
            Token::Type(t) => match parse_declaration(toks, lines, p, t) {
                Outcome::Parsed(d, q) => {
                    if q < p {
                        Outcome::Stuck
                    } else {
                        match parse_condition(toks, lines, q + 1) {
                            Outcome::Parsed(c, r) => {
                                if r < p {
                                    Outcome::Stuck
                                } else {
                                    match parse_statement(toks, lines, r + 1, ScopeType::For) {
                                        Outcome::Parsed(b, u) => Outcome::Parsed(
                                            branch(NodeType::If, seq![d, c, b]),
                                            u + 1,
                                        ),
                                        other => other,
                                    }
                                }
                            },
                            other => other,
                        }
                    }
                },
                other => other,
            },
            _ => err(lines, ET::ExpectedType, p),
        }
    }
}

/// A whole program: one block from the first token, under a `Program` node.
pub open spec fn parse_program(toks: Seq<Token>, lines: Seq<i32>) -> Outcome {
    match parse_scope(toks, lines, 0, ScopeType::Program) {
        Outcome::Parsed(b, p) => Outcome::Parsed(branch(NodeType::Program, seq![b]), p),
        other => other,
    }
}

/// The result `res` and the final cursor `pos` are what `o` says.
pub open spec fn agrees(o: Outcome, res: Result<TokenNode, RhErr>, pos: int) -> bool {
    match o {
        Outcome::Parsed(t, p) => res matches Ok(n) && n@ == t && pos == p,
        Outcome::Failed(e, p) => res == Err::<TokenNode, RhErr>(e) && pos == p,
        Outcome::Stuck => false,
    }
}

/// The token stream is short enough for the cursor to move past its end.
pub open spec fn fits(th: TokenHandler) -> bool {
    th.toks().len() + 3 <= usize::MAX
}

/// The cursor is at most two places past the last token.
pub open spec fn near(th: TokenHandler) -> bool {
    th.pos() <= th.toks().len() + 2
}

/// What a parsing function that moved the handler from `a` to `b` returned:
/// `None` exactly where `o` runs past the last token or line, otherwise the
/// result and the cursor that `steps` states.
pub open spec fn ends(a: TokenHandler, b: TokenHandler, o: Outcome, res: Option<Result<TokenNode, RhErr>>, slack: int) -> bool {
    match res {
        Some(r) => steps(a, b, o, r, slack),
        None => o is Stuck,
    }
}

/// The handler `b` is `a` after a parsing function that returned `res`:
/// the tokens and lines are kept, `res` and the cursor are what `o` says, and
/// the cursor moved forward, to at most `slack` places past the last token.
pub open spec fn steps(a: TokenHandler, b: TokenHandler, o: Outcome, res: Result<TokenNode, RhErr>, slack: int) -> bool {
    &&& b.toks() == a.toks()
    &&& b.lines() == a.lines()
    &&& agrees(o, res, b.pos())
    &&& a.pos() <= b.pos() <= a.toks().len() + slack
}

fn node1(token: NodeType, a: TokenNode) -> (res: TokenNode)
    ensures
        res@ == branch(token, seq![a@]),
{
    let mut children: Vec<TokenNode> = Vec::new();
    children.push(a);
    proof {
        lemma_trees_push(Seq::empty(), children@[0]);
        assert(Seq::<TokenNode>::empty().push(children@[0]) =~= children@);
        assert(trees(Seq::<TokenNode>::empty()) =~= Seq::<Tree>::empty());
    }
    let res = TokenNode::new(token, Some(children));
    assert(res@.children == Some(seq![a@]));
    res
}

fn node2(token: NodeType, a: TokenNode, b: TokenNode) -> (res: TokenNode)
    ensures
        res@ == branch(token, seq![a@, b@]),
{
    let mut children: Vec<TokenNode> = Vec::new();
    children.push(a);
    let ghost one = children@;
    children.push(b);
    proof {
        lemma_trees_push(Seq::empty(), one[0]);
        assert(Seq::<TokenNode>::empty().push(one[0]) =~= one);
        assert(trees(Seq::<TokenNode>::empty()) =~= Seq::<Tree>::empty());
        lemma_trees_push(one, children@[1]);
        assert(one.push(children@[1]) =~= children@);
        assert(trees(children@) =~= seq![a@, b@]);
    }
    TokenNode::new(token, Some(children))
}

fn node3(token: NodeType, a: TokenNode, b: TokenNode, c: TokenNode) -> (res: TokenNode)
    ensures
        res@ == branch(token, seq![a@, b@, c@]),
{
    let mut children: Vec<TokenNode> = Vec::new();
    children.push(a);
    let ghost one = children@;
    children.push(b);
    let ghost two = children@;
    children.push(c);
    proof {
        lemma_trees_push(Seq::empty(), one[0]);
        assert(Seq::<TokenNode>::empty().push(one[0]) =~= one);
        assert(trees(Seq::<TokenNode>::empty()) =~= Seq::<Tree>::empty());
        lemma_trees_push(one, two[1]);
        assert(one.push(two[1]) =~= two);
        lemma_trees_push(two, children@[2]);
        assert(two.push(children@[2]) =~= children@);
        assert(trees(children@) =~= seq![a@, b@, c@]);
    }
    TokenNode::new(token, Some(children))
}

proof fn lemma_factor_end(toks: Seq<Token>, lines: Seq<i32>, p: int)
    ensures
        parse_factor(toks, lines, p) matches Outcome::Parsed(_, s) ==> live(toks, s) && (
        toks[s] is NumLiteral || toks[s] is Id || toks[s] is CParen),
{
}

fn is_cmp_token(t: &Token) -> (r: bool)
    ensures
        r == is_cmp(*t),
{
    matches!(t, Token::EqCmp | Token::NeqCmp)
}

/// Parses a whole token stream into a `Program` node over its top block.
/// Returns `None` where parsing panics: where it runs past the last token,
/// needs the line of a token that `line_tracker` does not record, or makes
/// a node of a token that is no node kind.
pub fn program_checked(tokens: Vec<Token>, line_tracker: LineNumHandler) -> (res: Option<Result<TokenNode, RhErr>>)
    requires
        tokens@.len() + 3 <= usize::MAX,
    ensures
        match parse_program(tokens@, line_tracker.token_lines@) {
            Outcome::Parsed(t, _) => res matches Some(Ok(n)) && n@ == t,
            Outcome::Failed(e, _) => res == Some(Err::<TokenNode, RhErr>(e)),
            Outcome::Stuck => res is None,
        },
{
    let mut token_handler = TokenHandler::new(tokens, line_tracker);
    match block(&mut token_handler, ScopeType::Program) {
        Some(Ok(top_scope)) => Some(Ok(node1(NodeType::Program, top_scope))),
        Some(Err(e)) => Some(Err(e)),
        None => None,
    }
}

/// Parses a whole token stream into a `Program` node over its top block.
pub fn program(tokens: Vec<Token>, line_tracker: LineNumHandler) -> (res: Result<TokenNode, RhErr>)
    requires
        tokens@.len() + 3 <= usize::MAX,
        !(parse_program(tokens@, line_tracker.token_lines@) is Stuck),
    ensures
        match parse_program(tokens@, line_tracker.token_lines@) {
            Outcome::Parsed(t, _) => res matches Ok(n) && n@ == t,
            Outcome::Failed(e, _) => res == Err::<TokenNode, RhErr>(e),
            Outcome::Stuck => false,
        },
{
    match program_checked(tokens, line_tracker) {
        Some(r) => r,
        None => vstd::pervasive::unreached(),
    }
}

/// Parses a block: statements up to a closing brace or to the last token.
pub fn scope(token_handler: &mut TokenHandler, scope_type: ScopeType) -> (res: Result<TokenNode, RhErr>)
    requires
        fits(*old(token_handler)),
        !(parse_scope(old(token_handler).toks(), old(token_handler).lines(), old(token_handler).pos(), scope_type) is Stuck),
    ensures
        steps(*old(token_handler), *final(token_handler),
            parse_scope(old(token_handler).toks(), old(token_handler).lines(), old(token_handler).pos(), scope_type), res, 0),
{
    match block(token_handler, scope_type) {
        Some(r) => r,
        None => vstd::pervasive::unreached(),
    }
}

/// Parses one statement, chosen by its first token.
pub fn statement(token_handler: &mut TokenHandler, scope_type: ScopeType) -> (res: Result<TokenNode, RhErr>)
    requires
        fits(*old(token_handler)),
        !(parse_statement(old(token_handler).toks(), old(token_handler).lines(), old(token_handler).pos(), scope_type) is Stuck),
    ensures
        steps(*old(token_handler), *final(token_handler),
            parse_statement(old(token_handler).toks(), old(token_handler).lines(), old(token_handler).pos(), scope_type), res, 0),
{
    match one_statement(token_handler, scope_type) {
        Some(r) => r,
        None => vstd::pervasive::unreached(),
    }
}

/// Parses a block: statements up to a closing brace or to the last token;
/// `None` where it runs past the end.
fn block(token_handler: &mut TokenHandler, scope_type: ScopeType) -> (res: Option<Result<TokenNode, RhErr>>)
    requires
        fits(*old(token_handler)),
        near(*old(token_handler)),
    ensures
        ends(*old(token_handler), *final(token_handler),
            parse_scope(old(token_handler).toks(), old(token_handler).lines(), old(token_handler).pos(), scope_type), res, 0),
    decreases rem(old(token_handler).toks(), old(token_handler).pos()), 9int,
{
    let ghost target = parse_scope(token_handler.toks(), token_handler.lines(), token_handler.pos(), scope_type);
    let ghost start = token_handler.pos();
    let mut children: Vec<TokenNode> = Vec::new();
    assert(trees(children@) =~= Seq::<Tree>::empty());
    let mut at_close = match token_handler.current() {
        Some(t) => matches!(t, Token::CCurl),
        None => return None,
    };
    while !at_close
        invariant
            fits(*token_handler),
            token_handler.toks() == old(token_handler).toks(),
            token_handler.lines() == old(token_handler).lines(),
            start == old(token_handler).pos(),
            start <= token_handler.pos(),
            live(token_handler.toks(), token_handler.pos()),
            at_close == (token_handler.toks()[token_handler.pos()] is CCurl),
            target == parse_scope(old(token_handler).toks(), old(token_handler).lines(), start, scope_type),
            parse_scope_from(token_handler.toks(), token_handler.lines(), token_handler.pos(), scope_type, trees(children@)) == target,
        decreases token_handler.toks().len() - token_handler.pos(),
    {
        if token_handler.curr_token > token_handler.len() {
            return token_handler.fail_here(ET::ExpectedCParen);
        }
        let node = match one_statement(token_handler, scope_type) {
            Some(Ok(n)) => n,
            other => return other,
        };
        proof {
            lemma_trees_push(children@, node);
        }
        children.push(node);
        if token_handler.curr_token == token_handler.len() - 1 {
            return Some(Ok(TokenNode::new(NodeType::Scope(None), Some(children))));
        }
        token_handler.next_token();
        at_close = match token_handler.current() {
            Some(t) => matches!(t, Token::CCurl),
            None => return None,
        };
    }
    if token_handler.curr_token == 0 {
        return None;
    }
    let ty = if matches!(token_handler.get_prev_token(), Token::Semi) {
        Some(RhTypes::Int)
    } else {
        None
    };
    Some(Ok(TokenNode::new(NodeType::Scope(ty), Some(children))))
}

/// Parses one statement, chosen by its first token; `None` where it runs
/// past the end.
fn one_statement(token_handler: &mut TokenHandler, scope_type: ScopeType) -> (res: Option<Result<TokenNode, RhErr>>)
    requires
        fits(*old(token_handler)),
        near(*old(token_handler)),
    ensures
        ends(*old(token_handler), *final(token_handler),
            parse_statement(old(token_handler).toks(), old(token_handler).lines(), old(token_handler).pos(), scope_type), res, 0),
    decreases rem(old(token_handler).toks(), old(token_handler).pos()), 8int,
{
    let statement_token = match token_handler.current() {
        Some(t) => t,
        None => return None,
    };
    match statement_token {
        Token::Type(t) => {
            let t = *t;
            type_statement(token_handler, t)
        },
        Token::Id(name) => {
            let name = name.clone();
            id_statement(token_handler, name)
        },
        Token::If => if_statement(token_handler),
        Token::While => while_statement(token_handler),
        Token::For => for_statement(token_handler),
        Token::Break => {
            if scope_type == ScopeType::While || scope_type == ScopeType::Loop {
                Some(Ok(TokenNode::new(NodeType::Break, None)))
            } else {
                token_handler.fail_here(ET::ExpectedStatement)
            }
        },
        Token::Asm => asm_statement(token_handler),
        _ => token_handler.fail_here(ET::ExpectedStatement),
    }
}

fn declaration(token_handler: &mut TokenHandler, t: RhTypes) -> (res: Option<Result<TokenNode, RhErr>>)
    requires
        fits(*old(token_handler)),
        near(*old(token_handler)),
    ensures
        ends(*old(token_handler), *final(token_handler),
            parse_declaration(old(token_handler).toks(), old(token_handler).lines(), old(token_handler).pos(), t), res, 0),
    decreases rem(old(token_handler).toks(), old(token_handler).pos()), 5int,
{
    token_handler.next_token();
    let token = match token_handler.current() {
        Some(tok) => tok,
        None => return None,
    };
    match token {
        Token::Id(id) => {
            let id = id.clone();
            let mut children: Vec<TokenNode> = Vec::new();
            token_handler.next_token();
            let is_eq = match token_handler.current() {
                Some(tok) => matches!(tok, Token::Eq),
                None => return None,
            };
            if is_eq {
                token_handler.next_token();
                let e = match expression(token_handler) {
                    Some(Ok(e)) => e,
                    other => return other,
                };
                return Some(Ok(node1(NodeType::Declaration((id, t)), e)));
            }
            assert(trees(children@) =~= Seq::<Tree>::empty());
            Some(Ok(TokenNode::new(NodeType::Declaration((id, t)), Some(children))))
        },
        _ => token_handler.fail_here(ET::ExpectedId),
    }
}

fn declaration_statement(token_handler: &mut TokenHandler, t: RhTypes) -> (res: Option<Result<TokenNode, RhErr>>)
    requires
        fits(*old(token_handler)),
        near(*old(token_handler)),
    ensures
        ends(*old(token_handler), *final(token_handler),
            parse_declaration_statement(old(token_handler).toks(), old(token_handler).lines(), old(token_handler).pos(), t), res, 0),
    decreases rem(old(token_handler).toks(), old(token_handler).pos()), 6int,
{
    let declare = match declaration(token_handler, t) {
        Some(r) => r,
        None => return None,
    };
    token_handler.next_token();
    let semi = match token_handler.current() {
        Some(tok) => matches!(tok, Token::Semi),
        None => return None,
    };
    if !semi {
        return token_handler.fail_here(ET::ExpectedSemi);
    }
    Some(declare)
}

fn factor(token_handler: &mut TokenHandler) -> (res: Option<Result<TokenNode, RhErr>>)
    requires
        fits(*old(token_handler)),
        near(*old(token_handler)),
    ensures
        ends(*old(token_handler), *final(token_handler),
            parse_factor(old(token_handler).toks(), old(token_handler).lines(), old(token_handler).pos()), res, 0),
    decreases rem(old(token_handler).toks(), old(token_handler).pos()), 2int,
{
    let token = match token_handler.current() {
        Some(tok) => tok,
        None => return None,
    };
    match token {
        Token::NumLiteral(num) => Some(Ok(TokenNode::new(NodeType::NumLiteral(*num), None))),
        Token::Id(id) => Some(Ok(TokenNode::new(NodeType::Id(id.clone()), None))),
        Token::OParen => {
            token_handler.next_token();
            match expression(token_handler) {
                Some(Ok(node)) => {
                    let close = match token_handler.current() {
                        Some(tok) => matches!(tok, Token::CParen),
                        None => return None,
                    };
                    if close {
                        Some(Ok(node))
                    } else {
                        token_handler.fail_here(ET::ExpectedCParen)
                    }
                },
                other => other,
            }
        },
        _ => token_handler.fail_here(ET::ExpectedExpression),
    }
}

fn expression(token_handler: &mut TokenHandler) -> (res: Option<Result<TokenNode, RhErr>>)
    requires
        fits(*old(token_handler)),
        near(*old(token_handler)),
    ensures
        ends(*old(token_handler), *final(token_handler),
            parse_expression(old(token_handler).toks(), old(token_handler).lines(), old(token_handler).pos()), res, 0),
    decreases rem(old(token_handler).toks(), old(token_handler).pos()), 4int,
{
    let ghost target = parse_expression(token_handler.toks(), token_handler.lines(), token_handler.pos());
    let mut left = match term(token_handler) {
        Some(Ok(l)) => l,
        other => return other,
    };
    let after = match token_handler.ahead(1) {
        Some(tok) => tok,
        None => return None,
    };
    if !matches!(after, Token::Add | Token::Sub) {
        return Some(Ok(left));
    }
    token_handler.next_token();
    let mut curr_is_op = match token_handler.current() {
        Some(tok) => matches!(tok, Token::Add | Token::Sub),
        None => return None,
    };
    proof {
        let p = token_handler.pos();
        assert(parse_factor(token_handler.toks(), token_handler.lines(), p) == err(token_handler.lines(), ET::ExpectedExpression, p));
        assert(parse_term(token_handler.toks(), token_handler.lines(), p) == err(token_handler.lines(), ET::ExpectedExpression, p));
    }
    while curr_is_op
        invariant
            curr_is_op,
            fits(*token_handler),
            token_handler.toks() == old(token_handler).toks(),
            token_handler.lines() == old(token_handler).lines(),
            old(token_handler).pos() < token_handler.pos() < token_handler.toks().len(),
            target == parse_expression(old(token_handler).toks(), old(token_handler).lines(), old(token_handler).pos()),
            target == err(token_handler.lines(), ET::ExpectedExpression, token_handler.pos()),
            parse_term(token_handler.toks(), token_handler.lines(), token_handler.pos()) == target,
        decreases 0int,
    {
        let op = match token_handler.current() {
            Some(tok) => tok.clone(),
            None => return None,
        };
        let right = match term(token_handler) {
            Some(Ok(r)) => r,
            other => return other,
        };
        left = node2(NodeType::from_token(op).unwrap(), left, right);
        curr_is_op = match token_handler.current() {
            Some(tok) => matches!(tok, Token::Add | Token::Sub),
            None => return None,
        };
    }
    Some(Ok(left))
}

fn term(token_handler: &mut TokenHandler) -> (res: Option<Result<TokenNode, RhErr>>)
    requires
        fits(*old(token_handler)),
        near(*old(token_handler)),
    ensures
        ends(*old(token_handler), *final(token_handler),
            parse_term(old(token_handler).toks(), old(token_handler).lines(), old(token_handler).pos()), res, 0),
    decreases rem(old(token_handler).toks(), old(token_handler).pos()), 3int,
{
    let ghost target = parse_term(token_handler.toks(), token_handler.lines(), token_handler.pos());
    let mut left: TokenNode = match factor(token_handler) {
        Some(Ok(l)) => l,
        other => return other,
    };
    let after = match token_handler.ahead(1) {
        Some(tok) => tok,
        None => return None,
    };
    if !matches!(after, Token::Div | Token::Star) {
        return Some(Ok(left));
    }
    token_handler.next_token();
    let ghost first = left@;
    let ghost op_pos = token_handler.pos();
    let mut curr_is_op = match token_handler.current() {
        Some(tok) => matches!(tok, Token::Star | Token::Div),
        None => return None,
    };
    while curr_is_op
        invariant
            fits(*token_handler),
            token_handler.toks() == old(token_handler).toks(),
            token_handler.lines() == old(token_handler).lines(),
            old(token_handler).pos() < op_pos < token_handler.toks().len(),
            old(token_handler).pos() <= token_handler.pos() <= token_handler.toks().len(),
            target == parse_term(old(token_handler).toks(), old(token_handler).lines(), old(token_handler).pos()),
            token_handler.toks()[op_pos] is Star || token_handler.toks()[op_pos] is Div,
            curr_is_op ==> token_handler.pos() == op_pos && left@ == first,
            curr_is_op ==> match parse_factor(token_handler.toks(), token_handler.lines(), op_pos + 1) {
                Outcome::Parsed(r, s) => target == Outcome::Parsed(
                    branch(node_of_token(token_handler.toks()[op_pos])->Ok_0, seq![first, r]), s),
                other => target == other,
            },
            !curr_is_op ==> agrees(target, Ok(left), token_handler.pos()) && token_handler.pos() < token_handler.toks().len(),
        decreases (if curr_is_op { 1int } else { 0int }),
    {
        let op = match token_handler.current() {
            Some(tok) => tok.clone(),
            None => return None,
        };
        token_handler.next_token();
        let ghost before = token_handler.pos();
        let right = match factor(token_handler) {
            Some(Ok(r)) => r,
            other => return other,
        };
        proof {
            lemma_factor_end(token_handler.toks(), token_handler.lines(), before);
        }
        left = node2(NodeType::from_token(op).unwrap(), left, right);
        curr_is_op = match token_handler.current() {
            Some(tok) => matches!(tok, Token::Star | Token::Div),
            None => return None,
        };
    }
    Some(Ok(left))
}

/// Parses `name op expression ;` into `Assignment(name)` over a leaf made
/// from the value's first token and the value, as `parse_assignment`
/// states; the operator token is skipped.
fn assignment(token_handler: &mut TokenHandler, name: String) -> (res: Option<Result<TokenNode, RhErr>>)
    requires
        fits(*old(token_handler)),
        near(*old(token_handler)),
        live(old(token_handler).toks(), old(token_handler).pos()),
    ensures
        ends(*old(token_handler), *final(token_handler),
            parse_assignment(old(token_handler).toks(), old(token_handler).lines(), old(token_handler).pos(), name), res, 0),
    decreases rem(old(token_handler).toks(), old(token_handler).pos()), 5int,
{
    token_handler.next_token();
    let first = match token_handler.current() {
        Some(tok) => tok.clone(),
        None => return None,
    };
    let first = match NodeType::from_token(first) {
        Ok(kind) => kind,
        Err(_) => return None,
    };
    let value = match expression(token_handler) {
        Some(Ok(v)) => v,
        other => return other,
    };
    let token = node2(NodeType::Assignment(name), TokenNode::new(first, None), value);
    token_handler.next_token();
    let semi = match token_handler.current() {
        Some(tok) => matches!(tok, Token::Semi),
        None => return None,
    };
    if !semi {
        return token_handler.fail_here(ET::ExpectedSemi);
    }
    Some(Ok(token))
}

fn while_statement(token_handler: &mut TokenHandler) -> (res: Option<Result<TokenNode, RhErr>>)
    requires
        fits(*old(token_handler)),
        live(old(token_handler).toks(), old(token_handler).pos()),
    ensures
        ends(*old(token_handler), *final(token_handler),
            parse_while_statement(old(token_handler).toks(), old(token_handler).lines(), old(token_handler).pos()), res, 0),
    decreases rem(old(token_handler).toks(), old(token_handler).pos()), 7int,
{
    token_handler.next_token();
    let condition_node = match condition(token_handler) {
        Some(Ok(c)) => c,
        other => return other,
    };
    token_handler.next_token();
    token_handler.next_token();
    let scope_node = match block(token_handler, ScopeType::While) {
        Some(Ok(b)) => b,
        other => return other,
    };
    Some(Ok(node2(NodeType::While, condition_node, scope_node)))
}

fn if_statement(token_handler: &mut TokenHandler) -> (res: Option<Result<TokenNode, RhErr>>)
    requires
        fits(*old(token_handler)),
        live(old(token_handler).toks(), old(token_handler).pos()),
    ensures
        ends(*old(token_handler), *final(token_handler),
            parse_if_statement(old(token_handler).toks(), old(token_handler).lines(), old(token_handler).pos()), res, 0),
    decreases rem(old(token_handler).toks(), old(token_handler).pos()), 7int,
{
    token_handler.next_token();
    let condition_node = match condition(token_handler) {
        Some(Ok(c)) => c,
        other => return other,
    };
    token_handler.next_token();
    token_handler.next_token();
    let scope_node = match block(token_handler, ScopeType::If) {
        Some(Ok(b)) => b,
        other => return other,
    };
    Some(Ok(node2(NodeType::If, condition_node, scope_node)))
}

fn function_declare_statement(token_handler: &mut TokenHandler, ty: RhTypes) -> (res: Option<Result<TokenNode, RhErr>>)
    requires
        fits(*old(token_handler)),
        near(*old(token_handler)),
    ensures
        ends(*old(token_handler), *final(token_handler),
            parse_function_declare_statement(old(token_handler).toks(), old(token_handler).lines(), old(token_handler).pos(), ty), res, 0),
    decreases rem(old(token_handler).toks(), old(token_handler).pos()), 6int,
{
    let ghost target = parse_function_declare_statement(token_handler.toks(), token_handler.lines(), token_handler.pos(), ty);
    let ghost p = token_handler.pos();
    token_handler.next_token();
    let token = match token_handler.current() {
        Some(tok) => tok,
        None => return None,
    };
    if let Token::Id(id) = token {
        let id = id.clone();
        token_handler.next_token();
        let open = match token_handler.current() {
            Some(tok) => matches!(tok, Token::OParen),
            None => return None,
        };
        if !open {
            return token_handler.fail_here(ET::ExpectedCParen);
        }
        token_handler.next_token();
        let mut params: Vec<TokenNode> = Vec::new();
        let mut round: usize = 0;
        loop
            invariant_except_break
                fits(*token_handler),
                token_handler.toks() == old(token_handler).toks(),
                token_handler.lines() == old(token_handler).lines(),
                p == old(token_handler).pos(),
                target == parse_function_declare_statement(old(token_handler).toks(), old(token_handler).lines(), p, ty),
                live(token_handler.toks(), p + 2),
                token_handler.toks()[p + 1] == Token::Id(id),
                token_handler.toks()[p + 2] is OParen,
                round <= 1,
                round == 0 ==> token_handler.pos() == p + 3 && params@.len() == 0,
                round == 1 ==> p < token_handler.pos() && live(token_handler.toks(), token_handler.pos())
                    && token_handler.toks()[token_handler.pos()] is Comma
                    && target == err(token_handler.lines(), ET::ExpectedType, token_handler.pos()),
            ensures
                fits(*token_handler),
                token_handler.toks() == old(token_handler).toks(),
                token_handler.lines() == old(token_handler).lines(),
                live(token_handler.toks(), token_handler.pos()),
                !(token_handler.toks()[token_handler.pos()] is Comma),
                params@.len() == 1,
                live(token_handler.toks(), p + 3),
                match token_handler.toks()[p + 3] {
                    Token::Type(t) => parse_declaration(token_handler.toks(), token_handler.lines(), p + 3, t)
                        == Outcome::Parsed(params@[0]@, token_handler.pos()),
                    _ => false,
                },
                p < token_handler.pos(),
                token_handler.toks()[p + 1] == Token::Id(id),
                token_handler.toks()[p + 2] is OParen,
                target == parse_function_declare_statement(old(token_handler).toks(), old(token_handler).lines(), p, ty),
                p == old(token_handler).pos(),
            decreases 1 - round,
        {
            let token = match token_handler.current() {
                Some(tok) => tok,
                None => return None,
            };
            let t = match token {
                Token::Type(t) => *t,
                _ => return token_handler.fail_here(ET::ExpectedType),
            };
            let declaration_node = match declaration(token_handler, t) {
                Some(Ok(d)) => d,
                other => return other,
            };
            params.push(declaration_node);
            let comma = match token_handler.current() {
                Some(tok) => matches!(tok, Token::Comma),
                None => return None,
            };
            if !comma {
                break;
            }
            round = round + 1;
        }
        let close = match token_handler.current() {
            Some(tok) => matches!(tok, Token::CParen),
            None => return None,
        };
        if !close {
            return token_handler.fail_here(ET::ExpectedCParen);
        }
        token_handler.next_token();
        let arrow = match token_handler.current() {
            Some(tok) => matches!(tok, Token::Arrow),
            None => return None,
        };
        if arrow {
            token_handler.next_token();
            if token_handler.current().is_none() {
                return None;
            }
            return token_handler.fail_here(ET::ExpectedType);
        }
        token_handler.next_token();
        let scope_node = match block(token_handler, ScopeType::Function(ty)) {
            Some(Ok(b)) => b,
            other => return other,
        };
        let param = params.pop().unwrap();
        return Some(Ok(node2(NodeType::FunctionDecaration((id, ty)), param, scope_node)));
    }
    token_handler.fail_here(ET::ExpectedId)
}

fn function_call_statement(token_handler: &mut TokenHandler, name: String) -> (res: Option<Result<TokenNode, RhErr>>)
    requires
        fits(*old(token_handler)),
        live(old(token_handler).toks(), old(token_handler).pos()),
    ensures
        ends(*old(token_handler), *final(token_handler),
            parse_function_call_statement(old(token_handler).toks(), old(token_handler).lines(), old(token_handler).pos(), name), res, 0),
    decreases rem(old(token_handler).toks(), old(token_handler).pos()), 6int,
{
    let call_node = match function_call(token_handler, name) {
        Some(Ok(c)) => c,
        other => return other,
    };
    token_handler.next_token();
    let semi = match token_handler.current() {
        Some(tok) => matches!(tok, Token::Semi),
        None => return None,
    };
    if !semi {
        return token_handler.fail_here(ET::ExpectedSemi);
    }
    Some(Ok(call_node))
}

fn function_call(token_handler: &mut TokenHandler, name: String) -> (res: Option<Result<TokenNode, RhErr>>)
    requires
        fits(*old(token_handler)),
        live(old(token_handler).toks(), old(token_handler).pos()),
    ensures
        ends(*old(token_handler), *final(token_handler),
            parse_function_call(old(token_handler).toks(), old(token_handler).lines(), old(token_handler).pos(), name), res, 0),
    decreases rem(old(token_handler).toks(), old(token_handler).pos()), 5int,
{
    let ghost target = parse_function_call(token_handler.toks(), token_handler.lines(), token_handler.pos(), name);
    let ghost p = token_handler.pos();
    let mut args: Vec<TokenNode> = Vec::new();
    token_handler.next_token();
    let mut round: usize = 0;
    loop
        invariant_except_break
            fits(*token_handler),
            token_handler.toks() == old(token_handler).toks(),
            token_handler.lines() == old(token_handler).lines(),
            p == old(token_handler).pos(),
            live(token_handler.toks(), p),
            target == parse_function_call(old(token_handler).toks(), old(token_handler).lines(), p, name),
            round <= 1,
            round == 0 ==> token_handler.pos() == p + 1 && args@.len() == 0,
            round == 1 ==> p < token_handler.pos() && live(token_handler.toks(), token_handler.pos())
                && token_handler.toks()[token_handler.pos()] is Comma
                && target == err(token_handler.lines(), ET::ExpectedExpression, token_handler.pos()),
        ensures
            fits(*token_handler),
            token_handler.toks() == old(token_handler).toks(),
            token_handler.lines() == old(token_handler).lines(),
            live(token_handler.toks(), token_handler.pos()),
            !(token_handler.toks()[token_handler.pos()] is Comma),
            args@.len() == 1,
            parse_expression(token_handler.toks(), token_handler.lines(), p + 1)
                == Outcome::Parsed(args@[0]@, token_handler.pos() - 1),
            p < token_handler.pos(),
            target == parse_function_call(old(token_handler).toks(), old(token_handler).lines(), p, name),
        decreases 1 - round,
    {
        proof {
            if round == 1 {
                let q = token_handler.pos();
                assert(parse_factor(token_handler.toks(), token_handler.lines(), q) == err(token_handler.lines(), ET::ExpectedExpression, q));
                assert(parse_term(token_handler.toks(), token_handler.lines(), q) == err(token_handler.lines(), ET::ExpectedExpression, q));
            }
        }
        let arg_node = match expression(token_handler) {
            Some(Ok(a)) => a,
            other => return other,
        };
        args.push(arg_node);
        token_handler.next_token();
        let comma = match token_handler.current() {
            Some(tok) => matches!(tok, Token::Comma),
            None => return None,
        };
        if !comma {
            break;
        }
        round = round + 1;
    }
    let close = match token_handler.current() {
        Some(tok) => matches!(tok, Token::CParen),
        None => return None,
    };
    if !close {
        return token_handler.fail_here(ET::ExpectedCParen);
    }
    let arg = args.pop().unwrap();
    Some(Ok(node1(NodeType::FunctionCall(name), arg)))
}

fn id_statement(token_handler: &mut TokenHandler, id: String) -> (res: Option<Result<TokenNode, RhErr>>)
    requires
        fits(*old(token_handler)),
        near(*old(token_handler)),
    ensures
        ends(*old(token_handler), *final(token_handler),
            parse_id_statement(old(token_handler).toks(), old(token_handler).lines(), old(token_handler).pos(), id), res, 0),
    decreases rem(old(token_handler).toks(), old(token_handler).pos()), 7int,
{
    token_handler.next_token();
    let token = match token_handler.current() {
        Some(tok) => tok,
        None => return None,
    };
    match token {
        Token::OParen => function_call_statement(token_handler, id),
        _ => assignment(token_handler, id),
    }
}

fn type_statement(token_handler: &mut TokenHandler, t: RhTypes) -> (res: Option<Result<TokenNode, RhErr>>)
    requires
        fits(*old(token_handler)),
        near(*old(token_handler)),
    ensures
        ends(*old(token_handler), *final(token_handler),
            parse_type_statement(old(token_handler).toks(), old(token_handler).lines(), old(token_handler).pos(), t), res, 0),
    decreases rem(old(token_handler).toks(), old(token_handler).pos()), 7int,
{
    let token = match token_handler.ahead(2) {
        Some(tok) => tok,
        None => return None,
    };
    match token {
        Token::OParen => function_declare_statement(token_handler, t),
        _ => declaration_statement(token_handler, t),
    }
}

fn condition(token_handler: &mut TokenHandler) -> (res: Option<Result<TokenNode, RhErr>>)
    requires
        fits(*old(token_handler)),
        near(*old(token_handler)),
    ensures
        ends(*old(token_handler), *final(token_handler),
            parse_condition(old(token_handler).toks(), old(token_handler).lines(), old(token_handler).pos()), res, 0),
    decreases rem(old(token_handler).toks(), old(token_handler).pos()), 5int,
{
    let token = match token_handler.current() {
        Some(tok) => tok,
        None => return None,
    };
    match token {
        Token::OParen => {
            token_handler.next_token();
            let condition = match condition_expr(token_handler) {
                Some(c) => c,
                None => return None,
            };
            let token = match token_handler.current() {
                Some(tok) => tok,
                None => return None,
            };
            match token {
                Token::CParen => Some(condition),
                _ => token_handler.fail_here(ET::ExpectedCParen),
            }
        },
        _ => token_handler.fail_here(ET::ExpectedOParen),
    }
}

fn condition_expr(token_handler: &mut TokenHandler) -> (res: Option<Result<TokenNode, RhErr>>)
    requires
        fits(*old(token_handler)),
        near(*old(token_handler)),
    ensures
        ends(*old(token_handler), *final(token_handler),
            parse_condition_expr(old(token_handler).toks(), old(token_handler).lines(), old(token_handler).pos()), res, 0),
    decreases rem(old(token_handler).toks(), old(token_handler).pos()), 4int,
{
    let ghost target = parse_condition_expr(token_handler.toks(), token_handler.lines(), token_handler.pos());
    let mut left = match condition_term(token_handler) {
        Some(Ok(l)) => l,
        other => return other,
    };
    let after = match token_handler.ahead(1) {
        Some(tok) => tok,
        None => return None,
    };
    if !matches!(after, Token::AndCmp | Token::OrCmp) {
        return Some(Ok(left));
    }
    token_handler.next_token();
    let mut curr_is_op = match token_handler.current() {
        Some(tok) => matches!(tok, Token::AndCmp | Token::OrCmp),
        None => return None,
    };
    proof {
        let p = token_handler.pos();
        assert(parse_condition_factor(token_handler.toks(), token_handler.lines(), p) == err(token_handler.lines(), ET::ExpectedCondition, p));
        assert(parse_condition_term(token_handler.toks(), token_handler.lines(), p) == err(token_handler.lines(), ET::ExpectedCondition, p));
    }
    while curr_is_op
        invariant
            curr_is_op,
            fits(*token_handler),
            token_handler.toks() == old(token_handler).toks(),
            token_handler.lines() == old(token_handler).lines(),
            old(token_handler).pos() < token_handler.pos() < token_handler.toks().len(),
            target == parse_condition_expr(old(token_handler).toks(), old(token_handler).lines(), old(token_handler).pos()),
            target == err(token_handler.lines(), ET::ExpectedCondition, token_handler.pos()),
            parse_condition_term(token_handler.toks(), token_handler.lines(), token_handler.pos()) == target,
        decreases 0int,
    {
        let cmp = match token_handler.current() {
            Some(tok) => tok.clone(),
            None => return None,
        };
        let right = match condition_term(token_handler) {
            Some(Ok(r)) => r,
            other => return other,
        };
        left = node2(NodeType::from_token(cmp).unwrap(), left, right);
        curr_is_op = match token_handler.current() {
            Some(tok) => matches!(tok, Token::AndCmp | Token::OrCmp),
            None => return None,
        };
    }
    Some(Ok(left))
}

fn condition_term(token_handler: &mut TokenHandler) -> (res: Option<Result<TokenNode, RhErr>>)
    requires
        fits(*old(token_handler)),
        near(*old(token_handler)),
    ensures
        ends(*old(token_handler), *final(token_handler),
            parse_condition_term(old(token_handler).toks(), old(token_handler).lines(), old(token_handler).pos()), res, 0),
    decreases rem(old(token_handler).toks(), old(token_handler).pos()), 3int,
{
    let ghost target = parse_condition_term(token_handler.toks(), token_handler.lines(), token_handler.pos());
    let mut left = match condition_factor(token_handler) {
        Some(Ok(l)) => l,
        other => return other,
    };
    let after = match token_handler.ahead(1) {
        Some(tok) => tok,
        None => return None,
    };
    if !is_cmp_token(&after) {
        return Some(Ok(left));
    }
    token_handler.next_token();
    let mut curr_is_cmp = match token_handler.current() {
        Some(tok) => is_cmp_token(tok),
        None => return None,
    };
    while curr_is_cmp
        invariant
            fits(*token_handler),
            token_handler.toks() == old(token_handler).toks(),
            token_handler.lines() == old(token_handler).lines(),
            old(token_handler).pos() < token_handler.pos() <= token_handler.toks().len(),
            target == parse_condition_term(old(token_handler).toks(), old(token_handler).lines(), old(token_handler).pos()),
            curr_is_cmp ==> live(token_handler.toks(), token_handler.pos())
                && is_cmp(token_handler.toks()[token_handler.pos()])
                && parse_comparisons(token_handler.toks(), token_handler.lines(), left@, token_handler.pos()) == target,
            !curr_is_cmp ==> agrees(target, Ok(left), token_handler.pos()),
        decreases token_handler.toks().len() - token_handler.pos(),
    {
        let cmp = match token_handler.current() {
            Some(tok) => tok.clone(),
            None => return None,
        };
        token_handler.next_token();
        let right = match condition_factor(token_handler) {
            Some(Ok(r)) => r,
            other => return other,
        };
        left = node2(NodeType::from_token(cmp).unwrap(), left, right);
        token_handler.next_token();
        curr_is_cmp = match token_handler.current() {
            Some(tok) => is_cmp_token(tok),
            None => return None,
        };
    }
    Some(Ok(left))
}

fn condition_factor(token_handler: &mut TokenHandler) -> (res: Option<Result<TokenNode, RhErr>>)
    requires
        fits(*old(token_handler)),
        near(*old(token_handler)),
    ensures
        ends(*old(token_handler), *final(token_handler),
            parse_condition_factor(old(token_handler).toks(), old(token_handler).lines(), old(token_handler).pos()), res, 0),
    decreases rem(old(token_handler).toks(), old(token_handler).pos()), 2int,
{
    let token = match token_handler.current() {
        Some(tok) => tok,
        None => return None,
    };
    match token {
        Token::NumLiteral(num) => Some(Ok(TokenNode::new(NodeType::NumLiteral(*num), None))),
        Token::Id(name) => Some(Ok(TokenNode::new(NodeType::Id(name.clone()), None))),
        Token::OParen => {
            token_handler.next_token();
            let node = match expression(token_handler) {
                Some(Ok(n)) => n,
                other => return other,
            };
            let close = match token_handler.current() {
                Some(tok) => matches!(tok, Token::CParen),
                None => return None,
            };
            if close {
                Some(Ok(node))
            } else {
                token_handler.fail_here(ET::ExpectedCParen)
            }
        },
        _ => token_handler.fail_here(ET::ExpectedCondition),
    }
}

fn asm_statement(token_handler: &mut TokenHandler) -> (res: Option<Result<TokenNode, RhErr>>)
    requires
        fits(*old(token_handler)),
        near(*old(token_handler)),
    ensures
        ends(*old(token_handler), *final(token_handler),
            parse_asm_statement(old(token_handler).toks(), old(token_handler).lines(), old(token_handler).pos()), res, 0),
{
    token_handler.next_token();
    let open = match token_handler.current() {
        Some(tok) => matches!(tok, Token::OParen),
        None => return None,
    };
    if !open {
        return token_handler.fail_here(ET::ExpectedOParen);
    }
    token_handler.next_token();
    let token = match token_handler.current() {
        Some(tok) => tok,
        None => return None,
    };
    match token {
        Token::StrLiteral(text) => {
            let text = text.clone();
            token_handler.next_token();
            let close = match token_handler.current() {
                Some(tok) => matches!(tok, Token::CParen),
                None => return None,
            };
            if !close {
                return token_handler.fail_here(ET::ExpectedCParen);
            }
            token_handler.next_token();
            let semi = match token_handler.current() {
                Some(tok) => matches!(tok, Token::Semi),
                None => return None,
            };
            if !semi {
                return token_handler.fail_here(ET::ExpectedSemi);
            }
            Some(Ok(TokenNode::new(NodeType::Asm(text), None)))
        },
        _ => token_handler.fail_here(ET::ExpectedStrLiteral),
    }
}

fn for_statement(token_handler: &mut TokenHandler) -> (res: Option<Result<TokenNode, RhErr>>)
    requires
        fits(*old(token_handler)),
        near(*old(token_handler)),
    ensures
        ends(*old(token_handler), *final(token_handler),
            parse_for_statement(old(token_handler).toks(), old(token_handler).lines(), old(token_handler).pos()), res, 1),
    decreases rem(old(token_handler).toks(), old(token_handler).pos()), 7int,
{
    let token = match token_handler.current() {
        Some(tok) => tok,
        None => return None,
    };
    let t = match token {
        Token::Type(t) => *t,
        _ => return token_handler.fail_here(ET::ExpectedType),
    };
    let declare_node = match declaration(token_handler, t) {
        Some(Ok(d)) => d,
        other => return other,
    };
    token_handler.next_token();
    let condition_node = match condition(token_handler) {
        Some(Ok(c)) => c,
        other => return other,
    };
    token_handler.next_token();
    let statement_node = match one_statement(token_handler, ScopeType::For) {
        Some(Ok(s)) => s,
        other => return other,
    };
    token_handler.next_token();
    Some(Ok(node3(NodeType::If, declare_node, condition_node, statement_node)))
}

proof fn lemma_scope_is_scope(toks: Seq<Token>, lines: Seq<i32>, p: int, st: ScopeType, acc: Seq<Tree>)
    ensures
        parse_scope_from(toks, lines, p, st, acc) matches Outcome::Parsed(b, _) ==> b.token is Scope,
    decreases rem(toks, p),
{
    if live(toks, p) && !(toks[p] is CCurl) {
        match parse_statement(toks, lines, p, st) {
            Outcome::Parsed(t, q) => {
                if q >= p && q != toks.len() - 1 {
                    lemma_scope_is_scope(toks, lines, q + 1, st, acc.push(t));
                }
            },
            _ => {},
        }
    }
}

proof fn lemma_factor_forward(toks: Seq<Token>, lines: Seq<i32>, p: int)
    ensures
        parse_factor(toks, lines, p) matches Outcome::Parsed(_, q) ==> q >= p,
    decreases rem(toks, p), 2int,
{
    if live(toks, p) && toks[p] is OParen {
        lemma_expression_forward(toks, lines, p + 1);
    }
}

proof fn lemma_term_forward(toks: Seq<Token>, lines: Seq<i32>, p: int)
    ensures
        parse_term(toks, lines, p) matches Outcome::Parsed(_, q) ==> q >= p,
    decreases rem(toks, p), 3int,
{
    if live(toks, p) {
        lemma_factor_forward(toks, lines, p);
        if let Outcome::Parsed(_, q) = parse_factor(toks, lines, p) {
            if q >= p && live(toks, q + 1) {
                lemma_factor_forward(toks, lines, q + 2);
            }
        }
    }
}

proof fn lemma_expression_forward(toks: Seq<Token>, lines: Seq<i32>, p: int)
    ensures
        parse_expression(toks, lines, p) matches Outcome::Parsed(_, q) ==> q >= p,
    decreases rem(toks, p), 4int,
{
    if live(toks, p) {
        lemma_term_forward(toks, lines, p);
    }
}

/// A product keeps its operator: when a factor is followed by `*` or `/`
/// and a second factor, the term is a `Mul` node for `*` and a `Div` node
/// for `/`, over the two factors in order, ending where the second factor
/// ends.
pub proof fn law_term_operator(toks: Seq<Token>, lines: Seq<i32>, p: int, l: Tree, q: int, r: Tree, s: int)
    requires
        live(toks, p),
        parse_factor(toks, lines, p) == Outcome::Parsed(l, q),
        live(toks, q + 1),
        toks[q + 1] is Star || toks[q + 1] is Div,
        parse_factor(toks, lines, q + 2) == Outcome::Parsed(r, s),
    ensures
        parse_term(toks, lines, p) == Outcome::Parsed(
            Tree {
                token: if toks[q + 1] is Div {
                    NodeType::Div
                } else {
                    NodeType::Mul
                },
                children: Some(seq![l, r]),
            },
            s,
        ),
{
    lemma_factor_forward(toks, lines, p);
}

/// A comparison keeps its operator: a `==` or `!=` at `o` followed by a
/// condition factor makes an `EqCmp` node for `==` and a `NeqCmp` node for
/// `!=` over the chain so far and that factor; the chain goes on at the
/// next `==` or `!=`, and otherwise ends on the token after the factor.
pub proof fn law_comparison_operator(toks: Seq<Token>, lines: Seq<i32>, left: Tree, o: int, r: Tree, s: int)
    requires
        live(toks, o),
        is_cmp(toks[o]),
        parse_condition_factor(toks, lines, o + 1) == Outcome::Parsed(r, s),
        live(toks, s + 1),
    ensures
        ({
            let joined = Tree {
                token: if toks[o] is EqCmp {
                    NodeType::EqCmp
                } else {
                    NodeType::NeqCmp
                },
                children: Some(seq![left, r]),
            };
            parse_comparisons(toks, lines, left, o) == if is_cmp(toks[s + 1]) {
                parse_comparisons(toks, lines, joined, s + 1)
            } else {
                Outcome::Parsed(joined, s + 1)
            }
        }),
{
    if toks[o + 1] is OParen {
        lemma_expression_forward(toks, lines, o + 2);
    }
}

/// `break` is a statement only in a loop body: there it is a `Break` leaf
/// that ends on its own token; anywhere else it is an `ExpectedStatement`
/// error at that token.
pub proof fn law_break_only_in_loops(toks: Seq<Token>, lines: Seq<i32>, p: int, st: ScopeType)
    requires
        live(toks, p),
        toks[p] is Break,
    ensures
        (st == ScopeType::While || st == ScopeType::Loop) ==> parse_statement(toks, lines, p, st)
            == Outcome::Parsed(Tree { token: NodeType::Break, children: None }, p),
        !(st == ScopeType::While || st == ScopeType::Loop) ==> parse_statement(toks, lines, p, st)
            == err(lines, ET::ExpectedStatement, p),
{
}

proof fn lemma_condition_factor_forward(toks: Seq<Token>, lines: Seq<i32>, p: int)
    ensures
        parse_condition_factor(toks, lines, p) matches Outcome::Parsed(_, q) ==> q >= p,
{
    if live(toks, p) && toks[p] is OParen {
        lemma_expression_forward(toks, lines, p + 1);
    }
}

proof fn lemma_comparisons_forward(toks: Seq<Token>, lines: Seq<i32>, left: Tree, o: int)
    ensures
        parse_comparisons(toks, lines, left, o) matches Outcome::Parsed(_, q) ==> q >= o,
    decreases rem(toks, o),
{
    if live(toks, o) {
        lemma_condition_factor_forward(toks, lines, o + 1);
        if let Outcome::Parsed(r, s) = parse_condition_factor(toks, lines, o + 1) {
            if s >= o && live(toks, s + 1) && is_cmp(toks[s + 1]) {
                let joined = branch(node_of_token(toks[o])->Ok_0, seq![left, r]);
                lemma_comparisons_forward(toks, lines, joined, s + 1);
            }
        }
    }
}

proof fn lemma_condition_forward(toks: Seq<Token>, lines: Seq<i32>, p: int)
    ensures
        parse_condition(toks, lines, p) matches Outcome::Parsed(_, q) ==> q >= p,
{
    if live(toks, p) && toks[p] is OParen {
        let e = p + 1;
        if live(toks, e) {
            lemma_condition_factor_forward(toks, lines, e);
            if let Outcome::Parsed(l, q) = parse_condition_factor(toks, lines, e) {
                if q >= e && live(toks, q + 1) && is_cmp(toks[q + 1]) {
                    lemma_comparisons_forward(toks, lines, l, q + 1);
                }
            }
        }
    }
}

/// An `if` or `while` statement is a node of its kind over the condition
/// and the block that starts two tokens after the condition's closing
/// parenthesis (past the `)` and the `{`), and it ends where that block
/// ends.
pub proof fn law_if_while_nodes(toks: Seq<Token>, lines: Seq<i32>, p: int, c: Tree, r: int, b: Tree, u: int, w: Tree, x: int)
    requires
        live(toks, p),
        parse_condition(toks, lines, p + 1) == Outcome::Parsed(c, r),
    ensures
        parse_scope(toks, lines, r + 2, ScopeType::If) == Outcome::Parsed(b, u) ==> parse_if_statement(toks, lines, p)
            == Outcome::Parsed(Tree { token: NodeType::If, children: Some(seq![c, b]) }, u),
        parse_scope(toks, lines, r + 2, ScopeType::While) == Outcome::Parsed(w, x) ==> parse_while_statement(
            toks,
            lines,
            p,
        ) == Outcome::Parsed(Tree { token: NodeType::While, children: Some(seq![c, w]) }, x),
{
    lemma_condition_forward(toks, lines, p + 1);
}

/// A program that parses is a `Program` node whose one child is a block.
pub proof fn law_program_shape(toks: Seq<Token>, lines: Seq<i32>)
    ensures
        parse_program(toks, lines) matches Outcome::Parsed(t, _) ==> (t.token is Program && (
        t.children matches Some(c) && c.len() == 1 && c[0].token is Scope)),
{
    lemma_scope_is_scope(toks, lines, 0, ScopeType::Program, Seq::empty());
}

/// Stepping back after stepping forward leaves the cursor where it was:
/// `prev_token` undoes `next_token`. Right after `next_token` the cursor is
/// past the start, so `prev_token` may be called, and the previous token is
/// the one that was just left.
pub proof fn law_next_prev(a: TokenHandler, b: TokenHandler, c: TokenHandler)
    requires
        b.pos() == a.pos() + 1,
        b.toks() == a.toks(),
        b.lines() == a.lines(),
        c.pos() == b.pos() - 1,
        c.toks() == b.toks(),
        c.lines() == b.lines(),
    ensures
        b.pos() > 0,
        a.pos() < a.toks().len() ==> 1 <= b.pos() <= b.toks().len() && b.toks()[b.pos() - 1]
            == a.toks()[a.pos()],
        c.pos() == a.pos(),
        c.toks() == a.toks(),
        c.lines() == a.lines(),
{
    lemma_cursor_bounds(a);
}

} // verus!
