//! Tokenizer and parser: source text to tokens, tokens to a tree of
//! [`TokenContainer`] nodes, and the tree to evaluable values.
//!
//! Parentheses delimit nesting and whitespace separates tokens, except that
//! text between double quotes is captured verbatim as one token, embedded
//! spaces and parentheses included. Unbalanced parentheses, an unterminated
//! quote, a stray token outside any parentheses, and a node with no leading
//! name token are all syntax errors; empty input parses to an empty forest.

use crate::expression::{func_of_name, Expression, Func};
use crate::lisptype::{classify, model_seq, LispType, Val};
use crate::string::{find_char, find_from};
use crate::LispError;
use vstd::prelude::*;
use vstd::string::StringExecFns;
use vstd::string::StrSliceExecFns;

verus! {

/// One token of source text.
#[derive(Debug, PartialEq, Eq)]
pub enum Token {
    OpenParen,
    CloseParen,
    Word(String),
}

/// The spec-level token.
pub ghost enum Tok {
    Open,
    Close,
    Word(Seq<char>),
}

impl View for Token {
    type V = Tok;

    open spec fn view(&self) -> Tok {
        match self {
            Token::OpenParen => Tok::Open,
            Token::CloseParen => Tok::Close,
            Token::Word(w) => Tok::Word(w@),
        }
    }
}

/// The views of a sequence of tokens.
pub open spec fn toks_view(s: Seq<Token>) -> Seq<Tok> {
    Seq::new(s.len(), |i: int| s[i]@)
}

/// Whether `c` separates tokens outside of string literals.
pub open spec fn is_space(c: char) -> bool {
    c == ' ' || c == '\t' || c == '\n' || c == '\r'
}

/// Whether `c` ends a bare word.
pub open spec fn is_delim(c: char) -> bool {
    is_space(c) || c == '(' || c == ')' || c == '"'
}

/// The length of the bare word at the front of `s`.
pub open spec fn word_len(s: Seq<char>) -> int
    decreases s.len(),
{
    if s.len() == 0 || is_delim(s[0]) {
        0
    } else {
        1 + word_len(s.drop_first())
    }
}

/// The bare word at the front of `s` runs to the first delimiter.
pub proof fn lemma_word_len(s: Seq<char>)
    ensures
        0 <= word_len(s) <= s.len(),
        forall|k: int| 0 <= k < word_len(s) ==> !is_delim(#[trigger] s[k]),
        word_len(s) == s.len() || is_delim(s[word_len(s)]),
    decreases s.len(),
{
    if s.len() == 0 || is_delim(s[0]) {
    } else {
        lemma_word_len(s.drop_first());
        assert forall|k: int| 0 <= k < word_len(s) implies !is_delim(#[trigger] s[k]) by {
            if k > 0 {
                assert(s.drop_first()[k - 1] == s[k]);
            }
        }
        if word_len(s) < s.len() {
            assert(s.drop_first()[word_len(s) - 1] == s[word_len(s)]);
        }
    }
}

/// Prepend a token to a tokenizing result.
pub open spec fn cons_tok(t: Tok, r: Result<Seq<Tok>, LispError>) -> Result<Seq<Tok>, LispError> {
    match r {
        Ok(ts) => Ok(seq![t] + ts),
        Err(e) => Err(e),
    }
}

/// The tokens of `s`: parens, bare words, and quoted words kept verbatim
/// with their quotes. An unterminated quote is a syntax error.
pub open spec fn tokens_of(s: Seq<char>) -> Result<Seq<Tok>, LispError>
    decreases s.len(),
        via tokens_of_dec
{
    if s.len() == 0 {
        Ok(Seq::empty())
    } else if s[0] == '(' {
        cons_tok(Tok::Open, tokens_of(s.drop_first()))
    } else if s[0] == ')' {
        cons_tok(Tok::Close, tokens_of(s.drop_first()))
    } else if is_space(s[0]) {
        tokens_of(s.drop_first())
    } else if s[0] == '"' {
        match find_char(s.drop_first(), '"') {
            None => Err(LispError::SyntaxError),
            Some(j) => cons_tok(Tok::Word(s.take(j + 2)), tokens_of(s.skip(j + 2))),
        }
    } else {
        cons_tok(Tok::Word(s.take(word_len(s))), tokens_of(s.skip(word_len(s))))
    }
}

#[via_fn]
proof fn tokens_of_dec(s: Seq<char>) {
    if s.len() > 0 && s[0] == '"' {
        crate::string::lemma_find_char(s.drop_first(), '"');
    }
    if s.len() > 0 && !is_delim(s[0]) {
        lemma_word_len(s);
    }
}

/// A parsed call node: the operation name that follows its opening
/// parenthesis, and its children in order.
#[derive(Debug, PartialEq, Eq)]
pub struct TokenContainer {
    pub name: String,
    pub children: Vec<ChildrenType>,
}

/// One child of a call node: either a nested node or a literal token.
#[derive(Debug, PartialEq, Eq)]
pub enum ChildrenType {
    Container(TokenContainer),
    Else(String),
}

/// The spec-level call node.
pub ghost struct TokModel {
    pub name: Seq<char>,
    pub children: Seq<ChildModel>,
}

/// The spec-level child of a call node.
pub ghost enum ChildModel {
    Container(TokModel),
    Else(Seq<char>),
}

impl TokenContainer {
    /// The spec-level node this container stands for.
    pub open spec fn model(self) -> TokModel
        decreases self,
    {
        TokModel { name: self.name@, children: children_model(self.children@) }
    }
}

impl ChildrenType {
    /// The spec-level child this one stands for.
    pub open spec fn model(self) -> ChildModel
        decreases self,
    {
        match self {
            ChildrenType::Container(c) => ChildModel::Container(c.model()),
            ChildrenType::Else(w) => ChildModel::Else(w@),
        }
    }
}

/// The models of a sequence of children.
pub open spec fn children_model(s: Seq<ChildrenType>) -> Seq<ChildModel>
    decreases s,
{
    if s.len() == 0 {
        Seq::empty()
    } else {
        seq![s[0].model()] + children_model(s.drop_first())
    }
}

/// The models of a sequence of containers.
pub open spec fn containers_model(s: Seq<TokenContainer>) -> Seq<TokModel>
    decreases s,
{
    if s.len() == 0 {
        Seq::empty()
    } else {
        seq![s[0].model()] + containers_model(s.drop_first())
    }
}

/// `children_model` maps the sequence elementwise.
pub proof fn lemma_children_model(s: Seq<ChildrenType>)
    ensures
        children_model(s).len() == s.len(),
        forall|i: int| 0 <= i < s.len() ==> children_model(s)[i] == #[trigger] s[i].model(),
    decreases s.len(),
{
    if s.len() > 0 {
        lemma_children_model(s.drop_first());
        assert forall|i: int| 0 <= i < s.len() implies children_model(s)[i] == #[trigger] s[i].model() by {
            if i > 0 {
                assert(s.drop_first()[i - 1] == s[i]);
            }
        }
    }
}

/// `containers_model` maps the sequence elementwise.
pub proof fn lemma_containers_model(s: Seq<TokenContainer>)
    ensures
        containers_model(s).len() == s.len(),
        forall|i: int| 0 <= i < s.len() ==> containers_model(s)[i] == #[trigger] s[i].model(),
    decreases s.len(),
{
    if s.len() > 0 {
        lemma_containers_model(s.drop_first());
        assert forall|i: int| 0 <= i < s.len() implies containers_model(s)[i] == #[trigger] s[i].model() by {
            if i > 0 {
                assert(s.drop_first()[i - 1] == s[i]);
            }
        }
    }
}

impl View for TokenContainer {
    type V = TokModel;

    open spec fn view(&self) -> TokModel {
        self.model()
    }
}

impl View for ChildrenType {
    type V = ChildModel;

    open spec fn view(&self) -> ChildModel {
        self.model()
    }
}

impl TokenContainer {
    /// Set this node's name.
    pub fn set_name(&mut self, name: &str)
        ensures
            final(self)@.name == name@,
            final(self)@.children == old(self)@.children,
    {
        self.name = String::from_str(name);
    }

    /// Append a nested node to this node's children.
    pub fn add_child(&mut self, child: Self)
        ensures
            final(self)@.name == old(self)@.name,
            final(self)@.children == old(self)@.children.push(ChildModel::Container(child@)),
    {
        let ghost prev = self.children@;
        let ghost c = child@;
        self.children.push(ChildrenType::Container(child));
        proof {
            lemma_children_model(prev);
            lemma_children_model(self.children@);
            assert forall|i: int| 0 <= i < prev.len() + 1 implies children_model(self.children@)[i]
                == prev.push(ChildrenType::Container(child)).index(i).model() by {}
            assert(children_model(self.children@) =~= children_model(prev).push(
                ChildModel::Container(c),
            ));
        }
    }
}

/// One fold step of parsing: what the token stream from `toks` onward makes
/// of a stack of open nodes, the finished forest so far, and whether an
/// opening parenthesis was the token just before.
pub open spec fn build(
    toks: Seq<Tok>,
    stack: Seq<TokModel>,
    done: Seq<TokModel>,
    opened: bool,
) -> Result<Seq<TokModel>, LispError>
    decreases toks.len(),
{
    if toks.len() == 0 {
        if stack.len() == 0 {
            Ok(done)
        } else {
            Err(LispError::SyntaxError)
        }
    } else {
        match toks[0] {
            Tok::Open => build(
                toks.drop_first(),
                stack.push(TokModel { name: Seq::empty(), children: Seq::empty() }),
                done,
                true,
            ),
            Tok::Close => {
                if stack.len() == 0 {
                    Err(LispError::SyntaxError)
                } else {
                    let top = stack.last();
                    if top.name.len() == 0 {
                        Err(LispError::SyntaxError)
                    } else {
                        let rest = stack.drop_last();
                        if rest.len() > 0 {
                            let parent = rest.last();
                            let grown = TokModel {
                                name: parent.name,
                                children: parent.children.push(ChildModel::Container(top)),
                            };
                            build(toks.drop_first(), rest.drop_last().push(grown), done, false)
                        } else {
                            build(toks.drop_first(), rest, done.push(top), false)
                        }
                    }
                }
            },
            Tok::Word(w) => {
                if stack.len() == 0 {
                    Err(LispError::SyntaxError)
                } else if opened {
                    let top = stack.last();
                    let named = TokModel { name: w, children: top.children };
                    build(toks.drop_first(), stack.drop_last().push(named), done, false)
                } else {
                    let top = stack.last();
                    let grown = TokModel {
                        name: top.name,
                        children: top.children.push(ChildModel::Else(w)),
                    };
                    build(toks.drop_first(), stack.drop_last().push(grown), done, false)
                }
            },
        }
    }
}

/// The parsed forest of source text: its tokens folded through [`build`].
pub open spec fn forest_of(s: Seq<char>) -> Result<Seq<TokModel>, LispError> {
    match tokens_of(s) {
        Err(e) => Err(e),
        Ok(ts) => build(ts, Seq::empty(), Seq::empty(), false),
    }
}

/// The first position at or after `from` holding a delimiter, or the length.
fn find_delim_from(w: &str, from: usize) -> (r: usize)
    requires
        from <= w@.len(),
    ensures
        from <= r <= w@.len(),
        forall|k: int| from <= k < r ==> !is_delim(#[trigger] w@[k]),
        r == w@.len() || is_delim(w@[r as int]),
{
    let len = w.unicode_len();
    let mut i: usize = from;
    while i < len
        invariant
            from <= i <= len,
            len == w@.len(),
            forall|k: int| from <= k < i ==> !is_delim(#[trigger] w@[k]),
        decreases len - i,
    {
        let c = w.get_char(i);
        if c == ' ' || c == '\t' || c == '\n' || c == '\r' || c == '(' || c == ')' || c == '"' {
            return i;
        }
        i += 1;
    }
    len
}

/// Tokenize the text from position `i` on, in front of the tokens already
/// collected in `acc`.
fn tokenize_at(code: &str, i: usize, acc: Vec<Token>) -> (r: Result<Vec<Token>, LispError>)
    requires
        i <= code@.len(),
    ensures
        match tokens_of(code@.skip(i as int)) {
            Ok(ts) => r matches Ok(v) && toks_view(v@) == toks_view(acc@) + ts,
            Err(e) => r == Err::<Vec<Token>, LispError>(e),
        },
    decreases code@.len() - i,
{
    let len = code.unicode_len();
    let ghost rest = code@.skip(i as int);
    if i == len {
        proof {
            assert(rest =~= Seq::<char>::empty());
            assert(toks_view(acc@) + tokens_of(rest)->Ok_0 =~= toks_view(acc@));
        }
        return Ok(acc);
    }
    proof {
        assert(rest[0] == code@[i as int]);
        assert(rest.drop_first() =~= code@.skip(i as int + 1));
    }
    let c = code.get_char(i);
    if c == '(' {
        let mut acc2 = acc;
        let ghost prev = acc2@;
        acc2.push(Token::OpenParen);
        proof {
            lemma_push_toks(prev, Token::OpenParen, tokens_of(code@.skip(i as int + 1)));
        }
        tokenize_at(code, i + 1, acc2)
    } else if c == ')' {
        let mut acc2 = acc;
        let ghost prev = acc2@;
        acc2.push(Token::CloseParen);
        proof {
            lemma_push_toks(prev, Token::CloseParen, tokens_of(code@.skip(i as int + 1)));
        }
        tokenize_at(code, i + 1, acc2)
    } else if c == ' ' || c == '\t' || c == '\n' || c == '\r' {
        tokenize_at(code, i + 1, acc)
    } else if c == '"' {
        match find_from(code, i + 1, '"') {
            None => {
                proof {
                    crate::string::lemma_find_char(rest.drop_first(), '"');
                    assert forall|k: int| 0 <= k < rest.drop_first().len() implies #[trigger] rest.drop_first()[k] != '"' by {
                        assert(rest.drop_first()[k] == code@[i + 1 + k]);
                    }
                }
                Err(LispError::SyntaxError)
            },
            Some(j) => {
                proof {
                    crate::string::lemma_find_char(rest.drop_first(), '"');
                    assert(rest.drop_first()[j - i - 1] == code@[j as int]);
                    assert forall|k: int| 0 <= k < j - i - 1 implies #[trigger] rest.drop_first()[k] != '"' by {
                        assert(rest.drop_first()[k] == code@[i + 1 + k]);
                    }
                    if find_char(rest.drop_first(), '"') is None {
                        assert(rest.drop_first()[j - i - 1] != '"');
                    }
                    let fj = find_char(rest.drop_first(), '"')->Some_0;
                    if fj < j - i - 1 {
                        assert(rest.drop_first()[fj] != '"');
                    }
                    if fj > j - i - 1 {
                        assert(rest.drop_first()[j - i - 1] != '"');
                    }
                    assert(find_char(rest.drop_first(), '"') == Some(j - i - 1 as int));
                }
                let word = code.substring_char(i, j + 1);
                proof {
                    assert(word@ =~= rest.take(j - i + 1));
                    assert(rest.skip(j - i + 1) =~= code@.skip(j as int + 1));
                }
                let mut acc2 = acc;
                let tok = Token::Word(String::from_str(word));
                proof {
                    lemma_push_toks(acc2@, tok, tokens_of(code@.skip(j as int + 1)));
                }
                acc2.push(tok);
                tokenize_at(code, j + 1, acc2)
            },
        }
    } else {
        let end = find_delim_from(code, i);
        proof {
            lemma_word_len(rest);
            assert forall|k: int| 0 <= k < end - i implies !is_delim(#[trigger] rest[k]) by {
                assert(rest[k] == code@[i + k]);
            }
            if word_len(rest) < end - i {
                assert(!is_delim(rest[word_len(rest)]));
            }
            if word_len(rest) > end - i {
                assert(end < code@.len());
                assert(rest[end - i] == code@[end as int]);
                assert(!is_delim(rest[end - i]));
            }
            assert(word_len(rest) == end - i);
        }
        let word = code.substring_char(i, end);
        proof {
            assert(word@ =~= rest.take(word_len(rest)));
            assert(rest.skip(word_len(rest)) =~= code@.skip(end as int));
        }
        let mut acc2 = acc;
        let tok = Token::Word(String::from_str(word));
        proof {
            lemma_push_toks(acc2@, tok, tokens_of(code@.skip(end as int)));
        }
        acc2.push(tok);
        tokenize_at(code, end, acc2)
    }
}

/// Appending one token to the accumulator prepends its view to what is
/// still to come.
proof fn lemma_push_toks(prev: Seq<Token>, t: Token, rest: Result<Seq<Tok>, LispError>)
    ensures
        match rest {
            Ok(ts) => toks_view(prev.push(t)) + ts =~= toks_view(prev) + (seq![t@] + ts),
            Err(e) => true,
        },
{
    match rest {
        Ok(ts) => {
            assert forall|k: int| 0 <= k < prev.len() + 1 implies toks_view(prev.push(t))[k] == (
            toks_view(prev) + seq![t@])[k] by {
                if k < prev.len() {
                    assert(prev.push(t)[k] == prev[k]);
                } else {
                    assert(prev.push(t)[k] == t);
                }
            }
            assert(toks_view(prev.push(t)) =~= toks_view(prev) + seq![t@]);
            assert((toks_view(prev) + seq![t@]) + ts =~= toks_view(prev) + (seq![t@] + ts));
        },
        Err(e) => {},
    }
}

/// Split source text into tokens.
pub fn tokenize(code: &str) -> (r: Result<Vec<Token>, LispError>)
    ensures
        match tokens_of(code@) {
            Ok(ts) => r matches Ok(v) && toks_view(v@) == ts,
            Err(e) => r == Err::<Vec<Token>, LispError>(e),
        },
{
    proof {
        assert(code@.skip(0) =~= code@);
    }
    let r = tokenize_at(code, 0, Vec::new());
    proof {
        if tokens_of(code@) is Ok {
            let ts = tokens_of(code@)->Ok_0;
            assert(toks_view(Seq::<Token>::empty()) + ts =~= ts);
        }
    }
    r
}

/// Fold the tokens from position `i` on into the open stack and the
/// finished forest, mirroring [`build`].
fn build_at(
    toks: &Vec<Token>,
    i: usize,
    stack: Vec<TokenContainer>,
    done: Vec<TokenContainer>,
    opened: bool,
) -> (r: Result<Vec<TokenContainer>, LispError>)
    requires
        i <= toks@.len(),
    ensures
        match build(
            toks_view(toks@).skip(i as int),
            containers_model(stack@),
            containers_model(done@),
            opened,
        ) {
            Ok(f) => r matches Ok(v) && containers_model(v@) == f,
            Err(e) => r == Err::<Vec<TokenContainer>, LispError>(e),
        },
    decreases toks@.len() - i,
{
    let ghost rest = toks_view(toks@).skip(i as int);
    proof {
        lemma_containers_model(stack@);
        lemma_containers_model(done@);
    }
    if i == toks.len() {
        proof {
            assert(rest =~= Seq::<Tok>::empty());
        }
        if stack.len() == 0 {
            return Ok(done);
        } else {
            return Err(LispError::SyntaxError);
        }
    }
    proof {
        assert(rest[0] == toks_view(toks@)[i as int]);
        assert(rest.drop_first() =~= toks_view(toks@).skip(i as int + 1));
    }
    match &toks[i] {
        Token::OpenParen => {
            let mut stack2 = stack;
            let ghost prev = stack2@;
            let blank = TokenContainer { name: String::new(), children: Vec::new() };
            proof {
                lemma_containers_push(prev, blank);
                assert(children_model(Seq::<ChildrenType>::empty()) =~= Seq::<
                    ChildModel,
                >::empty());
            }
            stack2.push(blank);
            proof {
                assert(containers_model(stack2@) =~= containers_model(prev).push(
                    TokModel { name: Seq::empty(), children: Seq::empty() },
                ));
            }
            build_at(toks, i + 1, stack2, done, true)
        },
        Token::CloseParen => {
            let mut stack2 = stack;
            let top = match stack2.pop() {
                Some(t) => t,
                None => {
                    return Err(LispError::SyntaxError);
                },
            };
            proof {
                assert(containers_model(stack@).last() == top@);
                lemma_containers_take(stack@, stack@.len() - 1);
                assert(stack2@ =~= stack@.take(stack@.len() - 1));
                assert(containers_model(stack2@) =~= containers_model(stack@).drop_last());
            }
            if top.name.as_str().unicode_len() == 0 {
                return Err(LispError::SyntaxError);
            }
            if stack2.len() > 0 {
                let mut parent = match stack2.pop() {
                    Some(p) => p,
                    None => {
                        return Err(LispError::SyntaxError);
                    },
                };
                let ghost mid = stack2@;
                let ghost pm = parent@;
                let ghost tm = top@;
                proof {
                    lemma_containers_model(stack@.take(stack@.len() - 1));
                    lemma_containers_take(stack@.take(stack@.len() - 1), stack@.len() - 2);
                    assert(mid =~= stack@.take(stack@.len() - 1).take(stack@.len() - 2));
                }
                parent.add_child(top);
                let ghost grown = parent@;
                stack2.push(parent);
                proof {
                    assert(grown == TokModel {
                        name: pm.name,
                        children: pm.children.push(ChildModel::Container(tm)),
                    });
                    lemma_containers_push(mid, parent);
                }
                build_at(toks, i + 1, stack2, done, false)
            } else {
                let mut done2 = done;
                let ghost prevd = done2@;
                done2.push(top);
                proof {
                    lemma_containers_push(prevd, top);
                    assert(containers_model(stack2@) =~= Seq::<TokModel>::empty());
                }
                build_at(toks, i + 1, stack2, done2, false)
            }
        },
        Token::Word(w) => {
            if stack.len() == 0 {
                return Err(LispError::SyntaxError);
            }
            let mut stack2 = stack;
            let mut top = match stack2.pop() {
                Some(t) => t,
                None => {
                    return Err(LispError::SyntaxError);
                },
            };
            let ghost tm = top@;
            proof {
                assert(containers_model(stack@).last() == tm);
                lemma_containers_take(stack@, stack@.len() - 1);
                assert(stack2@ =~= stack@.take(stack@.len() - 1));
                assert(containers_model(stack2@) =~= containers_model(stack@).drop_last());
            }
            if opened {
                top.set_name(w.as_str());
            } else {
                let ghost prevc = top.children@;
                let child = ChildrenType::Else(w.clone());
                let ghost cm = child@;
                top.children.push(child);
                proof {
                    lemma_children_model(prevc);
                    lemma_children_model(top.children@);
                    assert forall|k: int| 0 <= k < prevc.len() + 1 implies children_model(
                        top.children@,
                    )[k] == children_model(prevc).push(cm)[k] by {
                        if k < prevc.len() {
                            assert(top.children@[k] == prevc[k]);
                        } else {
                            assert(top.children@[k].model() == cm);
                        }
                    }
                    assert(children_model(top.children@) =~= children_model(prevc).push(cm));
                    assert(cm == ChildModel::Else(w@));
                }
            }
            stack2.push(top);
            proof {
                lemma_containers_push(stack@.take(stack@.len() - 1), top);
            }
            build_at(toks, i + 1, stack2, done, false)
        },
    }
}

/// `containers_model` commutes with appending one container.
proof fn lemma_containers_push(s: Seq<TokenContainer>, x: TokenContainer)
    ensures
        containers_model(s.push(x)) == containers_model(s).push(x.model()),
{
    lemma_containers_model(s);
    lemma_containers_model(s.push(x));
    assert forall|i: int| 0 <= i < s.len() + 1 implies containers_model(s.push(x))[i]
        == containers_model(s).push(x.model())[i] by {
        assert(containers_model(s.push(x))[i] == s.push(x)[i].model());
        if i < s.len() {
            assert(s.push(x)[i] == s[i]);
        } else {
            assert(s.push(x)[i] == x);
        }
    }
    assert(containers_model(s.push(x)) =~= containers_model(s).push(x.model()));
}

/// `containers_model` commutes with taking a prefix.
proof fn lemma_containers_take(s: Seq<TokenContainer>, n: int)
    requires
        0 <= n <= s.len(),
    ensures
        containers_model(s.take(n)) == containers_model(s).take(n),
{
    lemma_containers_model(s);
    lemma_containers_model(s.take(n));
    assert forall|i: int| 0 <= i < n implies containers_model(s.take(n))[i] == containers_model(
        s,
    ).take(n)[i] by {
        assert(containers_model(s.take(n))[i] == s.take(n)[i].model());
        assert(s.take(n)[i] == s[i]);
    }
    assert(containers_model(s.take(n)) =~= containers_model(s).take(n));
}

/// Parse source text into a forest of call nodes, one for each top-level
/// form; empty input gives an empty forest.
pub fn ast(code: &str) -> (r: Result<Vec<TokenContainer>, LispError>)
    ensures
        match forest_of(code@) {
            Ok(f) => r matches Ok(v) && containers_model(v@) == f,
            Err(e) => r == Err::<Vec<TokenContainer>, LispError>(e),
        },
{
    let toks = match tokenize(code) {
        Ok(ts) => ts,
        Err(e) => {
            return Err(e);
        },
    };
    proof {
        assert(toks_view(toks@).skip(0) =~= toks_view(toks@));
        assert(containers_model(Seq::<TokenContainer>::empty()) =~= Seq::<TokModel>::empty());
    }
    build_at(&toks, 0, Vec::new(), Vec::new(), false)
}

/// The value a parsed node stands for: its name resolved in the operation
/// table, its children converted in order.
pub open spec fn convert(t: TokModel) -> Result<Val, LispError>
    decreases t, 1nat,
{
    match func_of_name(t.name) {
        None => Err(LispError::UnknownOperation),
        Some(f) => match convert_children(t.children) {
            Err(e) => Err(e),
            Ok(vs) => Ok(Val::Call(f, vs)),
        },
    }
}

/// The value one child stands for: a literal token is classified, a nested
/// node is converted.
pub open spec fn convert_child(c: ChildModel) -> Result<Val, LispError>
    decreases c, 2nat,
{
    match c {
        ChildModel::Else(w) => Ok(classify(w)),
        ChildModel::Container(t) => convert(t),
    }
}

/// The values a run of children stands for, stopping at the first failure.
pub open spec fn convert_children(s: Seq<ChildModel>) -> Result<Seq<Val>, LispError>
    decreases s, 0nat,
{
    if s.len() == 0 {
        Ok(Seq::empty())
    } else {
        match convert_child(s[0]) {
            Err(e) => Err(e),
            Ok(v) => match convert_children(s.drop_first()) {
                Err(e) => Err(e),
                Ok(vs) => Ok(seq![v] + vs),
            },
        }
    }
}

/// The values a forest of parsed nodes stands for.
pub open spec fn convert_forest(s: Seq<TokModel>) -> Result<Seq<Val>, LispError>
    decreases s,
{
    if s.len() == 0 {
        Ok(Seq::empty())
    } else {
        match convert(s[0]) {
            Err(e) => Err(e),
            Ok(v) => match convert_forest(s.drop_first()) {
                Err(e) => Err(e),
                Ok(vs) => Ok(seq![v] + vs),
            },
        }
    }
}

/// Convert one parsed node into a pending call, mirroring [`convert`].
fn convert_container(c: &TokenContainer) -> (r: Result<LispType, LispError>)
    ensures
        match convert(c@) {
            Ok(v) => r matches Ok(lt) && lt@ == v,
            Err(e) => r == Err::<LispType, LispError>(e),
        },
    decreases *c, 1nat,
{
    let f = match Func::new(c.name.as_str()) {
        Ok(f) => f,
        Err(e) => {
            return Err(e);
        },
    };
    proof {
        assert(children_model(c.children@).skip(0) =~= children_model(c.children@));
        assert(c.children@.skip(0) =~= c.children@);
        assert(decreases_to!(*c => c.children@));
    }
    let kids = match convert_children_at(&c.children, 0, Vec::new()) {
        Ok(v) => v,
        Err(e) => {
            return Err(e);
        },
    };
    proof {
        if convert_children(children_model(c.children@)) is Ok {
            assert(model_seq(Seq::<LispType>::empty()) + convert_children(
                children_model(c.children@),
            )->Ok_0 =~= convert_children(children_model(c.children@))->Ok_0);
        }
    }
    Ok(LispType::Expression(Expression { func: f, args: kids }))
}

/// Convert the children from position `i` on, behind those already
/// collected in `acc`, mirroring [`convert_children`].
fn convert_children_at(children: &Vec<ChildrenType>, i: usize, acc: Vec<LispType>) -> (r: Result<
    Vec<LispType>,
    LispError,
>)
    requires
        i <= children@.len(),
    ensures
        match convert_children(children_model(children@).skip(i as int)) {
            Ok(vs) => r matches Ok(v) && model_seq(v@) == model_seq(acc@) + vs,
            Err(e) => r == Err::<Vec<LispType>, LispError>(e),
        },
    decreases children@.skip(i as int), 0nat,
{
    let ghost rest = children_model(children@).skip(i as int);
    proof {
        lemma_children_model(children@);
        assert(rest.len() == children@.len() - i);
    }
    if i == children.len() {
        proof {
            assert(rest =~= Seq::<ChildModel>::empty());
            assert(model_seq(acc@) + Seq::<Val>::empty() =~= model_seq(acc@));
        }
        return Ok(acc);
    }
    proof {
        assert(rest[0] == children_model(children@)[i as int]);
        assert(rest.drop_first() =~= children_model(children@).skip(i as int + 1));
        assert(children@.skip(i as int)[0] == children@[i as int]);
        assert(decreases_to!(children@.skip(i as int) => children@.skip(i as int)[0]));
    }
    let converted = match &children[i] {
        ChildrenType::Else(w) => {
            proof {
                assert(children@[i as int].model() == ChildModel::Else(w@));
            }
            crate::lisptype::classify_token(w.as_str())
        },
        ChildrenType::Container(t) => {
            proof {
                assert(children@[i as int].model() == ChildModel::Container(t@));
                assert(rest[0] == ChildModel::Container(t@));
                assert(convert_child(rest[0]) == convert(t@));
                assert(decreases_to!(children@[i as int] => *t));
            }
            match convert_container(t) {
                Ok(lt) => lt,
                Err(e) => {
                    proof {
                        assert(convert(t@) == Err::<Val, LispError>(e));
                        assert(convert_children(rest) == Err::<Seq<Val>, LispError>(e));
                    }
                    return Err(e);
                },
            }
        },
    };
    let ghost cv = converted@;
    let mut acc2 = acc;
    let ghost prev = acc2@;
    proof {
        crate::lisptype::lemma_model_seq_push(prev, converted);
    }
    acc2.push(converted);
    proof {
        assert(model_seq(acc2@) =~= model_seq(prev).push(cv));
        if convert_children(rest.drop_first()) is Ok {
            let vs = convert_children(rest.drop_first())->Ok_0;
            assert(model_seq(prev).push(cv) + vs =~= model_seq(prev) + (seq![cv] + vs));
        }
        let tail = children@.skip(i as int);
        assert(children@.skip(i as int + 1) =~= tail.subrange(1, tail.len() as int));
        assert(decreases_to!(tail => tail.subrange(1, tail.len() as int)));
    }
    convert_children_at(children, i + 1, acc2)
}

/// Convert a forest of parsed nodes into pending calls, one for each node.
pub fn create_lisptypes(input: Vec<TokenContainer>) -> (r: Result<Vec<LispType>, LispError>)
    ensures
        match convert_forest(containers_model(input@)) {
            Ok(vs) => r matches Ok(v) && model_seq(v@) == vs,
            Err(e) => r == Err::<Vec<LispType>, LispError>(e),
        },
{
    let mut out: Vec<LispType> = Vec::new();
    let mut i: usize = 0;
    proof {
        lemma_containers_model(input@);
        assert(containers_model(input@).skip(0) =~= containers_model(input@));
        assert(model_seq(Seq::<LispType>::empty()) =~= Seq::<Val>::empty());
    }
    while i < input.len()
        invariant
            0 <= i <= input@.len(),
            containers_model(input@).len() == input@.len(),
            forall|k: int| 0 <= k < input@.len() ==> containers_model(input@)[k]
                == #[trigger] input@[k].model(),
            match convert_forest(containers_model(input@)) {
                Ok(vs) => convert_forest(containers_model(input@).skip(i as int)) matches Ok(tl)
                    && model_seq(out@) + tl =~= vs,
                Err(e) => convert_forest(containers_model(input@).skip(i as int)) == Err::<
                    Seq<Val>,
                    LispError,
                >(e),
            },
        decreases input@.len() - i,
    {
        let ghost rest = containers_model(input@).skip(i as int);
        proof {
            assert(rest[0] == containers_model(input@)[i as int]);
            assert(rest.drop_first() =~= containers_model(input@).skip(i as int + 1));
        }
        let lt = match convert_container(&input[i]) {
            Ok(lt) => lt,
            Err(e) => {
                return Err(e);
            },
        };
        let ghost lv = lt@;
        let ghost prev = out@;
        proof {
            crate::lisptype::lemma_model_seq_push(prev, lt);
        }
        out.push(lt);
        proof {
            assert(model_seq(out@) =~= model_seq(prev).push(lv));
            if convert_forest(rest.drop_first()) is Ok {
                let tl = convert_forest(rest.drop_first())->Ok_0;
                assert(model_seq(prev).push(lv) + tl =~= model_seq(prev) + (seq![lv] + tl));
            }
        }
        i += 1;
    }
    proof {
        assert(containers_model(input@).skip(i as int) =~= Seq::<TokModel>::empty());
        if convert_forest(containers_model(input@)) is Ok {
            assert(model_seq(out@) + Seq::<Val>::empty() =~= model_seq(out@));
        }
    }
    Ok(out)
}

} // verus!
