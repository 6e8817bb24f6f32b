use vstd::prelude::*;

use crate::alphabet::{is_alpha, is_alpha_char};
use crate::error::LambdaError;
use crate::outside::{graphemes_of, push_char, split_graphemes};
use crate::term::{Lambda, LambdaV};
use vstd::string::StrSliceExecFns;

verus! {

// ---------------------------------------------------------------------------
// Symbols
// ---------------------------------------------------------------------------
/// The single character a grapheme cluster stands for; clusters of more
/// than one code point stand for a character outside every token class and
/// are reported as invalid symbols when tokenized.
pub open spec fn sym_of(g: Seq<char>) -> char {
    if g.len() == 1 {
        g[0]
    } else {
        '\u{0}'
    }
}

/// The symbol sequence of a segmented source text.
pub open spec fn symbols_of(gs: Seq<Seq<char>>) -> Seq<char> {
    gs.map_values(|g: Seq<char>| sym_of(g))
}

/// The models of a list of supplied splice arguments.
pub open spec fn seq_views(s: Seq<Lambda>) -> Seq<LambdaV> {
    s.map_values(|t: Lambda| t@)
}

fn classify_symbols(g: &Vec<String>) -> (r: Vec<char>)
    ensures
        r@ == symbols_of(g.deep_view()),
{
    let mut out: Vec<char> = Vec::new();
    let mut idx: usize = 0;
    while idx < g.len()
        invariant
            idx <= g@.len(),
            out@.len() == idx,
            forall|j: int| 0 <= j < idx ==> out@[j] == sym_of(g.deep_view()[j]),
        decreases g@.len() - idx,
    {
        let s = &g[idx];
        let c = if s.as_str().unicode_len() == 1 {
            s.as_str().get_char(0)
        } else {
            '\u{0}'
        };
        out.push(c);
        idx = idx + 1;
    }
    proof {
        assert(out@ =~= symbols_of(g.deep_view()));
    }
    out
}

// ---------------------------------------------------------------------------
// Tokens
// ---------------------------------------------------------------------------
/// A token of one flat symbol run.
pub enum TokenV {
    /// A variable name: a maximal run of alphabet symbols.
    TVar(Seq<char>),
    /// A shorthand abstraction header: the declared parameter names.
    THeader(Seq<Seq<char>>),
    /// A splice slot, to be bound to the next supplied argument.
    TSplice,
    /// A splice slot marked with the hygiene sigil: the bound argument is
    /// wrapped in a hygiene scope.
    TSpliceMarked,
    /// An application placeholder: a run of whitespace.
    TApp,
}

enum Token {
    TVar(String),
    THeader(Vec<String>),
    TSplice,
    TSpliceMarked,
    TApp,
}

impl View for Token {
    type V = TokenV;

    closed spec fn view(&self) -> TokenV {
        match self {
            Token::TVar(s) => TokenV::TVar(s@),
            Token::THeader(v) => TokenV::THeader(v.deep_view()),
            Token::TSplice => TokenV::TSplice,
            Token::TSpliceMarked => TokenV::TSpliceMarked,
            Token::TApp => TokenV::TApp,
        }
    }
}

spec fn tokens_view(ts: Seq<Token>) -> Seq<TokenV> {
    ts.map_values(|t: Token| t@)
}

/// The tokenizer's scanning state.
pub enum ScanStV {
    /// Between tokens.
    Normal,
    /// Inside a variable name, holding the symbols read so far.
    InName(Seq<char>),
    /// Inside an abstraction header: the current name and the names done.
    InHeader(Seq<char>, Seq<Seq<char>>),
    /// Just after `{`, expecting `}`.
    SawBrace,
    /// Just after `&`; a following `{}` becomes a marked splice, anything
    /// else is read as if the `&` were not there.
    SawAmp,
    /// Just after `&{`, expecting `}`.
    SawAmpBrace,
}

enum ScanSt {
    Normal,
    InName(String),
    InHeader(String, Vec<String>),
    SawBrace,
    SawAmp,
    SawAmpBrace,
}

impl View for ScanSt {
    type V = ScanStV;

    closed spec fn view(&self) -> ScanStV {
        match self {
            ScanSt::Normal => ScanStV::Normal,
            ScanSt::InName(s) => ScanStV::InName(s@),
            ScanSt::InHeader(s, v) => ScanStV::InHeader(s@, v.deep_view()),
            ScanSt::SawBrace => ScanStV::SawBrace,
            ScanSt::SawAmp => ScanStV::SawAmp,
            ScanSt::SawAmpBrace => ScanStV::SawAmpBrace,
        }
    }
}

/// The tokenizer, one symbol per step.  Within a flat run: whitespace is an
/// application placeholder, `&` is consumed silently, `%` opens a header
/// read up to its terminating `.`, `{}` is a splice slot, alphabet symbols
/// group greedily into names, and anything else is an invalid symbol.
pub open spec fn scan_v(s: Seq<char>, i: int, hi: int, st: ScanStV) -> Result<
    Seq<TokenV>,
    LambdaError,
>
    decreases hi - i,
{
    if i >= hi {
        match st {
            ScanStV::Normal => Ok(Seq::empty()),
            ScanStV::InName(n) => Ok(seq![TokenV::TVar(n)]),
            ScanStV::InHeader(_, _) => Err(LambdaError::MalformedHeader),
            ScanStV::SawBrace => Err(LambdaError::InvalidSymbol),
            ScanStV::SawAmp => Ok(Seq::empty()),
            ScanStV::SawAmpBrace => Err(LambdaError::InvalidSymbol),
        }
    } else {
        let c = s[i];
        match st {
            ScanStV::Normal => if c == ' ' {
                scan_cons(TokenV::TApp, scan_v(s, i + 1, hi, ScanStV::Normal))
            } else if c == '&' {
                scan_v(s, i + 1, hi, ScanStV::SawAmp)
            } else if c == '%' {
                scan_v(s, i + 1, hi, ScanStV::InHeader(Seq::empty(), Seq::empty()))
            } else if c == '{' {
                scan_v(s, i + 1, hi, ScanStV::SawBrace)
            } else if is_alpha(c) {
                scan_v(s, i + 1, hi, ScanStV::InName(seq![c]))
            } else {
                Err(LambdaError::InvalidSymbol)
            },
            ScanStV::InName(n) => if is_alpha(c) {
                scan_v(s, i + 1, hi, ScanStV::InName(n.push(c)))
            } else if c == ' ' {
                scan_cons(
                    TokenV::TVar(n),
                    scan_cons(TokenV::TApp, scan_v(s, i + 1, hi, ScanStV::Normal)),
                )
            } else if c == '&' {
                scan_cons(TokenV::TVar(n), scan_v(s, i + 1, hi, ScanStV::SawAmp))
            } else if c == '%' {
                scan_cons(
                    TokenV::TVar(n),
                    scan_v(s, i + 1, hi, ScanStV::InHeader(Seq::empty(), Seq::empty())),
                )
            } else if c == '{' {
                scan_cons(TokenV::TVar(n), scan_v(s, i + 1, hi, ScanStV::SawBrace))
            } else {
                Err(LambdaError::InvalidSymbol)
            },
            ScanStV::InHeader(cur, acc) => if is_alpha(c) {
                scan_v(s, i + 1, hi, ScanStV::InHeader(cur.push(c), acc))
            } else if c == '|' {
                if cur.len() == 0 {
                    Err(LambdaError::MalformedHeader)
                } else {
                    scan_v(s, i + 1, hi, ScanStV::InHeader(Seq::empty(), acc.push(cur)))
                }
            } else if c == '.' {
                if cur.len() == 0 {
                    Err(LambdaError::MalformedHeader)
                } else {
                    scan_cons(TokenV::THeader(acc.push(cur)), scan_v(s, i + 1, hi, ScanStV::Normal))
                }
            } else {
                Err(LambdaError::InvalidSymbol)
            },
            ScanStV::SawBrace => if c == '}' {
                scan_cons(TokenV::TSplice, scan_v(s, i + 1, hi, ScanStV::Normal))
            } else {
                Err(LambdaError::InvalidSymbol)
            },
            ScanStV::SawAmp => if c == '{' {
                scan_v(s, i + 1, hi, ScanStV::SawAmpBrace)
            } else if c == ' ' {
                scan_cons(TokenV::TApp, scan_v(s, i + 1, hi, ScanStV::Normal))
            } else if c == '&' {
                scan_v(s, i + 1, hi, ScanStV::SawAmp)
            } else if c == '%' {
                scan_v(s, i + 1, hi, ScanStV::InHeader(Seq::empty(), Seq::empty()))
            } else if is_alpha(c) {
                scan_v(s, i + 1, hi, ScanStV::InName(seq![c]))
            } else {
                Err(LambdaError::InvalidSymbol)
            },
            ScanStV::SawAmpBrace => if c == '}' {
                scan_cons(TokenV::TSpliceMarked, scan_v(s, i + 1, hi, ScanStV::Normal))
            } else {
                Err(LambdaError::InvalidSymbol)
            },
        }
    }
}

/// Prepends a token to a scan result.
pub open spec fn scan_cons(t: TokenV, rest: Result<Seq<TokenV>, LambdaError>) -> Result<
    Seq<TokenV>,
    LambdaError,
> {
    match rest {
        Ok(ts) => Ok(seq![t] + ts),
        Err(e) => Err(e),
    }
}

fn clone_names(v: &Vec<String>) -> (r: Vec<String>)
    ensures
        r.deep_view() == v.deep_view(),
{
    let mut out: Vec<String> = Vec::new();
    let mut idx: usize = 0;
    while idx < v.len()
        invariant
            idx <= v@.len(),
            out@.len() == idx,
            forall|j: int| 0 <= j < idx ==> out@[j]@ == v@[j]@,
        decreases v@.len() - idx,
    {
        out.push(v[idx].clone());
        idx = idx + 1;
    }
    proof {
        assert(out.deep_view() =~= v.deep_view());
    }
    out
}

fn prepend_token(t: Token, r: Result<Vec<Token>, LambdaError>) -> (out: Result<
    Vec<Token>,
    LambdaError,
>)
    ensures
        ({
            match r {
                Ok(ts) => match out {
                    Ok(ts2) => tokens_view(ts2@) == seq![t@] + tokens_view(ts@),
                    Err(_) => false,
                },
                Err(e) => out == Err::<Vec<Token>, LambdaError>(e),
            }
        }),
{
    match r {
        Ok(mut ts) => {
            let ghost tv = t@;
            let ghost ts0 = ts@;
            ts.insert(0, t);
            proof {
                assert(tokens_view(ts@) =~= seq![tv] + tokens_view(ts0));
            }
            Ok(ts)
        },
        Err(e) => Err(e),
    }
}

fn scan_exec(chars: &Vec<char>, i: usize, hi: usize, st: ScanSt) -> (r: Result<
    Vec<Token>,
    LambdaError,
>)
    requires
        i <= hi <= chars@.len(),
    ensures
        ({
            let s = scan_v(chars@, i as int, hi as int, st@);
            match r {
                Ok(ts) => s == Ok::<Seq<TokenV>, LambdaError>(tokens_view(ts@)),
                Err(e) => s == Err::<Seq<TokenV>, LambdaError>(e),
            }
        }),
    decreases hi - i,
{
    if i >= hi {
        match st {
            ScanSt::Normal => {
                let v: Vec<Token> = Vec::new();
                proof {
                    assert(tokens_view(v@) =~= Seq::<TokenV>::empty());
                }
                Ok(v)
            },
            ScanSt::InName(n) => {
                let ghost nv = n@;
                let mut v: Vec<Token> = Vec::new();
                v.push(Token::TVar(n));
                proof {
                    assert(tokens_view(v@) =~= seq![TokenV::TVar(nv)]);
                }
                Ok(v)
            },
            ScanSt::InHeader(_, _) => Err(LambdaError::MalformedHeader),
            ScanSt::SawBrace => Err(LambdaError::InvalidSymbol),
            ScanSt::SawAmp => {
                let v: Vec<Token> = Vec::new();
                proof {
                    assert(tokens_view(v@) =~= Seq::<TokenV>::empty());
                }
                Ok(v)
            },
            ScanSt::SawAmpBrace => Err(LambdaError::InvalidSymbol),
        }
    } else {
        let c = chars[i];
        match st {
            ScanSt::Normal => {
                if c == ' ' {
                    prepend_token(Token::TApp, scan_exec(chars, i + 1, hi, ScanSt::Normal))
                } else if c == '&' {
                    scan_exec(chars, i + 1, hi, ScanSt::SawAmp)
                } else if c == '%' {
                    let cur = String::new();
                    let names: Vec<String> = Vec::new();
                    proof {
                        assert(names.deep_view() =~= Seq::<Seq<char>>::empty());
                    }
                    scan_exec(chars, i + 1, hi, ScanSt::InHeader(cur, names))
                } else if c == '{' {
                    scan_exec(chars, i + 1, hi, ScanSt::SawBrace)
                } else if is_alpha_char(c) {
                    let mut n = String::new();
                    push_char(&mut n, c);
                    proof {
                        assert(n@ =~= seq![c]);
                    }
                    scan_exec(chars, i + 1, hi, ScanSt::InName(n))
                } else {
                    Err(LambdaError::InvalidSymbol)
                }
            },
            ScanSt::InName(mut n) => {
                let ghost nv = n@;
                if is_alpha_char(c) {
                    push_char(&mut n, c);
                    scan_exec(chars, i + 1, hi, ScanSt::InName(n))
                } else if c == ' ' {
                    prepend_token(
                        Token::TVar(n),
                        prepend_token(Token::TApp, scan_exec(chars, i + 1, hi, ScanSt::Normal)),
                    )
                } else if c == '&' {
                    prepend_token(Token::TVar(n), scan_exec(chars, i + 1, hi, ScanSt::SawAmp))
                } else if c == '%' {
                    let cur = String::new();
                    let names: Vec<String> = Vec::new();
                    proof {
                        assert(names.deep_view() =~= Seq::<Seq<char>>::empty());
                    }
                    prepend_token(
                        Token::TVar(n),
                        scan_exec(chars, i + 1, hi, ScanSt::InHeader(cur, names)),
                    )
                } else if c == '{' {
                    prepend_token(Token::TVar(n), scan_exec(chars, i + 1, hi, ScanSt::SawBrace))
                } else {
                    Err(LambdaError::InvalidSymbol)
                }
            },
            ScanSt::InHeader(mut cur, mut acc) => {
                let ghost curv = cur@;
                let ghost accv = acc.deep_view();
                if is_alpha_char(c) {
                    push_char(&mut cur, c);
                    scan_exec(chars, i + 1, hi, ScanSt::InHeader(cur, acc))
                } else if c == '|' {
                    if cur.as_str().unicode_len() == 0 {
                        Err(LambdaError::MalformedHeader)
                    } else {
                        acc.push(cur);
                        proof {
                            assert(acc.deep_view() =~= accv.push(curv));
                        }
                        let fresh = String::new();
                        scan_exec(chars, i + 1, hi, ScanSt::InHeader(fresh, acc))
                    }
                } else if c == '.' {
                    if cur.as_str().unicode_len() == 0 {
                        Err(LambdaError::MalformedHeader)
                    } else {
                        acc.push(cur);
                        proof {
                            assert(acc.deep_view() =~= accv.push(curv));
                        }
                        prepend_token(
                            Token::THeader(acc),
                            scan_exec(chars, i + 1, hi, ScanSt::Normal),
                        )
                    }
                } else {
                    Err(LambdaError::InvalidSymbol)
                }
            },
            ScanSt::SawBrace => {
                if c == '}' {
                    prepend_token(Token::TSplice, scan_exec(chars, i + 1, hi, ScanSt::Normal))
                } else {
                    Err(LambdaError::InvalidSymbol)
                }
            },
            ScanSt::SawAmp => {
                if c == '{' {
                    scan_exec(chars, i + 1, hi, ScanSt::SawAmpBrace)
                } else if c == ' ' {
                    prepend_token(Token::TApp, scan_exec(chars, i + 1, hi, ScanSt::Normal))
                } else if c == '&' {
                    scan_exec(chars, i + 1, hi, ScanSt::SawAmp)
                } else if c == '%' {
                    let cur = String::new();
                    let names: Vec<String> = Vec::new();
                    proof {
                        assert(names.deep_view() =~= Seq::<Seq<char>>::empty());
                    }
                    scan_exec(chars, i + 1, hi, ScanSt::InHeader(cur, names))
                } else if is_alpha_char(c) {
                    let mut n = String::new();
                    push_char(&mut n, c);
                    proof {
                        assert(n@ =~= seq![c]);
                    }
                    scan_exec(chars, i + 1, hi, ScanSt::InName(n))
                } else {
                    Err(LambdaError::InvalidSymbol)
                }
            },
            ScanSt::SawAmpBrace => {
                if c == '}' {
                    prepend_token(Token::TSpliceMarked, scan_exec(chars, i + 1, hi, ScanSt::Normal))
                } else {
                    Err(LambdaError::InvalidSymbol)
                }
            },
        }
    }
}

fn tokenize(chars: &Vec<char>, lo: usize, hi: usize) -> (r: Result<Vec<Token>, LambdaError>)
    requires
        lo <= hi <= chars@.len(),
    ensures
        ({
            let full = scan_v(chars@, lo as int, hi as int, ScanStV::Normal);
            match r {
                Ok(ts) => full == Ok::<Seq<TokenV>, LambdaError>(tokens_view(ts@)),
                Err(e) => full == Err::<Seq<TokenV>, LambdaError>(e),
            }
        }),
{
    scan_exec(chars, lo, hi, ScanSt::Normal)
}

// ---------------------------------------------------------------------------
// Items and folding
// ---------------------------------------------------------------------------
/// One element of a nesting level, ready for application folding: a built
/// term, a pending abstraction header, or an application placeholder.
pub enum ItemV {
    /// A built term: a variable, a resolved splice, or a nested group.
    Term(LambdaV),
    /// A shorthand abstraction header.
    Header(Seq<Seq<char>>),
    /// An application placeholder.
    App,
}

enum Item {
    Term(Lambda),
    Header(Vec<String>),
    App,
}

impl View for Item {
    type V = ItemV;

    closed spec fn view(&self) -> ItemV {
        match self {
            Item::Term(t) => ItemV::Term(t@),
            Item::Header(v) => ItemV::Header(v.deep_view()),
            Item::App => ItemV::App,
        }
    }
}

spec fn items_view(s: Seq<Item>) -> Seq<ItemV> {
    s.map_values(|it: Item| it@)
}

/// Binds each splice token to the next supplied argument, in order, and
/// turns the token list of one run into items.
pub open spec fn items_of_tokens(toks: Seq<TokenV>, args: Seq<LambdaV>, k: nat) -> Result<
    (Seq<ItemV>, nat),
    LambdaError,
>
    decreases toks.len(),
{
    if toks.len() == 0 {
        Ok((Seq::empty(), k))
    } else {
        match toks[0] {
            TokenV::TVar(n) => items_cons(
                ItemV::Term(LambdaV::Variable(n)),
                items_of_tokens(toks.drop_first(), args, k),
            ),
            TokenV::THeader(ns) => items_cons(
                ItemV::Header(ns),
                items_of_tokens(toks.drop_first(), args, k),
            ),
            TokenV::TApp => items_cons(ItemV::App, items_of_tokens(toks.drop_first(), args, k)),
            TokenV::TSplice => if k < args.len() {
                items_cons(
                    ItemV::Term(args[k as int]),
                    items_of_tokens(toks.drop_first(), args, k + 1),
                )
            } else {
                Err(LambdaError::MissingSpliceArgument)
            },
            TokenV::TSpliceMarked => if k < args.len() {
                items_cons(
                    ItemV::Term(LambdaV::AlphaMark(Box::new(args[k as int]))),
                    items_of_tokens(toks.drop_first(), args, k + 1),
                )
            } else {
                Err(LambdaError::MissingSpliceArgument)
            },
        }
    }
}

/// Prepends an item to an item-collection result.
pub open spec fn items_cons(it: ItemV, rest: Result<(Seq<ItemV>, nat), LambdaError>) -> Result<
    (Seq<ItemV>, nat),
    LambdaError,
> {
    match rest {
        Ok((items, k)) => Ok((seq![it] + items, k)),
        Err(e) => Err(e),
    }
}

fn append_token_items(
    toks: Vec<Token>,
    args: &Vec<Lambda>,
    k: usize,
    items: &mut Vec<Item>,
) -> (r: Result<usize, LambdaError>)
    requires
        k <= args@.len(),
    ensures
        ({
            let s = items_of_tokens(tokens_view(toks@), seq_views(args@), k as nat);
            match r {
                Ok(k2) => ({
                    &&& s == Ok::<(Seq<ItemV>, nat), LambdaError>(
                        (items_view(final (items)@).skip(old(items)@.len() as int), k2 as nat),
                    )
                    &&& final (items)@.take(old(items)@.len() as int) == old(items)@
                    &&& final (items)@.len() >= old(items)@.len()
                    &&& k2 <= args@.len()
                }),
                Err(e) => s == Err::<(Seq<ItemV>, nat), LambdaError>(e),
            }
        }),
{
    let ghost items0 = items@;
    let ghost toksv = tokens_view(toks@);
    let ghost argsv = seq_views(args@);
    let ghost k0 = k as nat;
    let mut kk = k;
    let mut j: usize = 0;
    let n = toks.len();
    proof {
        assert(toksv.skip(0) =~= toksv);
        assert(items@.take(items0.len() as int) =~= items0);
        assert(items_view(items@).skip(items0.len() as int) =~= Seq::<ItemV>::empty());
        match items_of_tokens(toksv, argsv, k0) {
            Ok(p) => {
                assert(items_view(items@).skip(items0.len() as int) + p.0 =~= p.0);
            },
            Err(e) => {},
        }
        assert(k0 == k as nat);
    }
    while j < n
        invariant
            j <= toks@.len(),
            n == toks@.len(),
            kk <= args@.len(),
            k0 == k as nat,
            toksv == tokens_view(toks@),
            argsv == seq_views(args@),
            items@.take(items0.len() as int) =~= items0,
            items@.len() >= items0.len(),
            ({
                let full = items_of_tokens(toksv, argsv, k0);
                match items_of_tokens(toksv.skip(j as int), argsv, kk as nat) {
                    Ok(p) => full == Ok::<(Seq<ItemV>, nat), LambdaError>(
                        (items_view(items@).skip(items0.len() as int) + p.0, p.1),
                    ),
                    Err(e) => full == Err::<(Seq<ItemV>, nat), LambdaError>(e),
                }
            }),
        decreases toks@.len() - j,
    {
        let ghost itemsb = items@;
        proof {
            assert(toksv.skip(j as int)[0] == toksv[j as int]);
            assert(toksv.skip(j as int).drop_first() =~= toksv.skip(j as int + 1));
            assert(toksv[j as int] == toks@[j as int]@);
        }
        match &toks[j] {
            Token::TVar(nm) => {
                items.push(Item::Term(Lambda::Variable(nm.clone())));
            },
            Token::THeader(ns) => {
                items.push(Item::Header(clone_names(ns)));
            },
            Token::TApp => {
                items.push(Item::App);
            },
            Token::TSpliceMarked => {
                if kk < args.len() {
                    proof {
                        assert(argsv[kk as int] == args@[kk as int]@);
                    }
                    items.push(Item::Term(args[kk].clone().alpha()));
                    kk = kk + 1;
                } else {
                    proof {
                        assert(argsv.len() == args@.len());
                        assert(items_of_tokens(toksv.skip(j as int), argsv, kk as nat)
                            == Err::<(Seq<ItemV>, nat), LambdaError>(
                            LambdaError::MissingSpliceArgument,
                        ));
                    }
                    return Err(LambdaError::MissingSpliceArgument);
                }
            },
            Token::TSplice => {
                if kk < args.len() {
                    proof {
                        assert(argsv[kk as int] == args@[kk as int]@);
                    }
                    items.push(Item::Term(args[kk].clone()));
                    kk = kk + 1;
                } else {
                    proof {
                        assert(argsv.len() == args@.len());
                        assert(items_of_tokens(toksv.skip(j as int), argsv, kk as nat)
                            == Err::<(Seq<ItemV>, nat), LambdaError>(
                            LambdaError::MissingSpliceArgument,
                        ));
                    }
                    return Err(LambdaError::MissingSpliceArgument);
                }
            },
        }
        j = j + 1;
        proof {
            assert(items@.take(items0.len() as int) =~= items0);
            assert(items_view(items@).skip(items0.len() as int) =~= items_view(itemsb).skip(
                items0.len() as int,
            ) + seq![items@.last()@]);
            match items_of_tokens(toksv.skip(j as int), argsv, kk as nat) {
                Ok(p) => {
                    assert(items_view(items@).skip(items0.len() as int) + p.0 =~= items_view(
                        itemsb,
                    ).skip(items0.len() as int) + (seq![items@.last()@] + p.0));
                },
                Err(e) => {},
            }
        }
    }
    proof {
        assert(toksv.skip(n as int) =~= Seq::<TokenV>::empty());
        assert(items_view(items@).skip(items0.len() as int) + Seq::<ItemV>::empty() =~= items_view(
            items@,
        ).skip(items0.len() as int));
    }
    Ok(kk)
}

// ---------------------------------------------------------------------------
// Bracket segmentation and level construction
// ---------------------------------------------------------------------------
/// A range length that is never negative, for termination measures.
pub open spec fn range_measure(lo: int, hi: int) -> int {
    if hi - lo < 0 {
        0
    } else {
        hi - lo
    }
}

/// The position of the closing bracket matching an opening bracket just
/// before `i`, scanning while `depth` brackets are open.
pub open spec fn find_close_v(s: Seq<char>, i: int, hi: int, depth: nat) -> Option<int>
    decreases hi - i,
{
    if i >= hi {
        None
    } else if s[i] == ')' {
        if depth == 1 {
            Some(i)
        } else {
            find_close_v(s, i + 1, hi, (depth - 1) as nat)
        }
    } else if s[i] == '(' {
        find_close_v(s, i + 1, hi, depth + 1)
    } else {
        find_close_v(s, i + 1, hi, depth)
    }
}

/// The number of symbols before the next structural bracket.
pub open spec fn run_len(s: Seq<char>, i: int, hi: int) -> nat
    decreases hi - i,
{
    if i >= hi || s[i] == '(' || s[i] == ')' {
        0
    } else {
        1 + run_len(s, i + 1, hi)
    }
}

/// The bracket segmenter and item collector for one nesting level: flat
/// runs are tokenized and their splices bound in order, bracket groups are
/// parsed recursively (wrapped as hygiene scopes where `&` stands directly
/// before the `(`), and a stray `)` or an unmatched `(` is an unclosed
/// bracket.
pub open spec fn collect_items_v(
    s: Seq<char>,
    i: int,
    hi: int,
    args: Seq<LambdaV>,
    k: nat,
) -> Result<(Seq<ItemV>, nat), LambdaError>
    decreases range_measure(i, hi), 0int,
{
    if i >= hi {
        Ok((Seq::empty(), k))
    } else if s[i] == '(' {
        let alpha = i > 0 && s[i - 1] == '&';
        match find_close_v(s, i + 1, hi, 1) {
            None => Err(LambdaError::UnclosedBracket),
            Some(jr) => {
                let j = if i + 1 <= jr < hi {
                    jr
                } else {
                    i + 1
                };
                match parse_level_v(s, i + 1, j, args, k) {
                    Err(e) => Err(e),
                    Ok((t, k2)) => {
                        let t2 = if alpha {
                            LambdaV::AlphaMark(Box::new(t))
                        } else {
                            t
                        };
                        match collect_items_v(s, j + 1, hi, args, k2) {
                            Err(e) => Err(e),
                            Ok((items, k3)) => Ok((seq![ItemV::Term(t2)] + items, k3)),
                        }
                    },
                }
            },
        }
    } else if s[i] == ')' {
        Err(LambdaError::UnclosedBracket)
    } else {
        let e = i + run_len(s, i, hi);
        match scan_v(s, i, e, ScanStV::Normal) {
            Err(er) => Err(er),
            Ok(toks) => match items_of_tokens(toks, args, k) {
                Err(er) => Err(er),
                Ok((items1, k2)) => match collect_items_v(s, e, hi, args, k2) {
                    Err(er) => Err(er),
                    Ok((items2, k3)) => Ok((items1 + items2, k3)),
                },
            },
        }
    }
}

/// Curries a parameter list around a body, outermost parameter first.
pub open spec fn wrap_params_v(names: Seq<Seq<char>>, body: LambdaV) -> LambdaV
    decreases names.len(),
{
    if names.len() == 0 {
        body
    } else {
        LambdaV::Func(
            Box::new(LambdaV::Variable(names[0])),
            Box::new(wrap_params_v(names.drop_first(), body)),
        )
    }
}

/// Folds the items of one level left to right: terms separated by one or
/// more placeholders become left-associated applications; surplus leading
/// and trailing placeholders are ignored; two terms with no placeholder
/// between them, or a header after the start, are invalid.
pub open spec fn fold_apps_v(
    items: Seq<ItemV>,
    i: int,
    acc: Option<LambdaV>,
    pending: bool,
) -> Result<LambdaV, LambdaError>
    decreases items.len() - i,
{
    if i >= items.len() {
        match acc {
            None => Err(LambdaError::InvalidSymbol),
            Some(t) => Ok(t),
        }
    } else {
        match items[i] {
            ItemV::App => match acc {
                None => fold_apps_v(items, i + 1, acc, false),
                Some(_) => fold_apps_v(items, i + 1, acc, true),
            },
            ItemV::Header(_) => Err(LambdaError::InvalidSymbol),
            ItemV::Term(t) => match acc {
                None => fold_apps_v(items, i + 1, Some(t), false),
                Some(a) => if pending {
                    fold_apps_v(
                        items,
                        i + 1,
                        Some(LambdaV::Reducible(Box::new(a), Box::new(t))),
                        false,
                    )
                } else {
                    Err(LambdaError::InvalidSymbol)
                },
            },
        }
    }
}

/// Builds one level's term from its items: an empty level is invalid; a
/// leading header desugars into nested abstractions around the folded rest;
/// otherwise the items fold into applications.
pub open spec fn fold_items_v(items: Seq<ItemV>) -> Result<LambdaV, LambdaError> {
    if items.len() == 0 {
        Err(LambdaError::InvalidSymbol)
    } else {
        match items[0] {
            ItemV::Header(names) => match fold_apps_v(items, 1, Option::None, false) {
                Err(e) => Err(e),
                Ok(body) => Ok(wrap_params_v(names, body)),
            },
            _ => fold_apps_v(items, 0, Option::None, false),
        }
    }
}

/// One nesting level as a term, with the next unused splice index.
pub open spec fn parse_level_v(s: Seq<char>, lo: int, hi: int, args: Seq<LambdaV>, k: nat) -> Result<
    (LambdaV, nat),
    LambdaError,
>
    decreases range_measure(lo, hi), 1int,
{
    match collect_items_v(s, lo, hi, args, k) {
        Err(e) => Err(e),
        Ok((items, k2)) => match fold_items_v(items) {
            Err(e) => Err(e),
            Ok(t) => Ok((t, k2)),
        },
    }
}

/// A whole source text over given splice arguments: every argument must be
/// consumed.
pub open spec fn parse_symbols(s: Seq<char>, args: Seq<LambdaV>) -> Result<LambdaV, LambdaError> {
    match parse_level_v(s, 0, s.len() as int, args, 0) {
        Err(e) => Err(e),
        Ok((t, k)) => if k == args.len() {
            Ok(t)
        } else {
            Err(LambdaError::MissingSpliceArgument)
        },
    }
}

/// A whole source string: its grapheme clusters, read as symbols, parsed
/// over the supplied splice arguments.
pub open spec fn parse_source(s: Seq<char>, args: Seq<LambdaV>) -> Result<LambdaV, LambdaError> {
    parse_symbols(symbols_of(graphemes_of(s)), args)
}

fn find_close(chars: &Vec<char>, start: usize, hi: usize) -> (r: Option<usize>)
    requires
        1 <= start <= hi <= chars@.len(),
    ensures
        ({
            let s = find_close_v(chars@, start as int, hi as int, 1);
            match r {
                Some(j) => s == Some(j as int) && start <= j < hi,
                None => s is None,
            }
        }),
{
    let mut i = start;
    let mut depth: usize = 1;
    while i < hi
        invariant
            start <= i <= hi <= chars@.len(),
            1 <= depth,
            depth <= 1 + i - start,
            1 <= start,
            find_close_v(chars@, start as int, hi as int, 1) == find_close_v(
                chars@,
                i as int,
                hi as int,
                depth as nat,
            ),
        decreases hi - i,
    {
        let c = chars[i];
        if c == ')' {
            if depth == 1 {
                return Some(i);
            }
            depth = depth - 1;
        } else if c == '(' {
            depth = depth + 1;
        }
        i = i + 1;
    }
    None
}

fn wrap_params(names: Vec<String>, body: Lambda) -> (r: Lambda)
    ensures
        r@ == wrap_params_v(names.deep_view(), body@),
{
    let ghost nv = names.deep_view();
    let ghost bodyv = body@;
    let mut cur = body;
    let mut j = names.len();
    proof {
        assert(nv.skip(names@.len() as int) =~= Seq::<Seq<char>>::empty());
    }
    while j != 0
        invariant
            j <= names@.len(),
            nv == names.deep_view(),
            cur@ == wrap_params_v(nv.skip(j as int), bodyv),
        decreases j,
    {
        j = j - 1;
        let ghost prev = cur@;
        let param = Lambda::Variable(names[j].clone());
        proof {
            assert(nv[j as int] == names@[j as int]@);
            assert(param@ == LambdaV::Variable(nv[j as int]));
        }
        cur = Lambda::Func(Box::new(param), Box::new(cur));
        proof {
            assert(nv.skip(j as int)[0] == nv[j as int]);
            assert(nv.skip(j as int).drop_first() =~= nv.skip(j as int + 1));
            assert(cur@ == LambdaV::Func(
                Box::new(LambdaV::Variable(nv[j as int])),
                Box::new(prev),
            ));
        }
    }
    proof {
        assert(nv.skip(0) =~= nv);
    }
    cur
}

fn fold_apps(items: Vec<Item>, start: usize) -> (r: Result<Lambda, LambdaError>)
    requires
        start <= items@.len(),
    ensures
        ({
            let s = fold_apps_v(items_view(items@), start as int, Option::None, false);
            match r {
                Ok(t) => s == Ok::<LambdaV, LambdaError>(t@),
                Err(e) => s == Err::<LambdaV, LambdaError>(e),
            }
        }),
{
    let ghost itemsv = items_view(items@);
    let ghost full = fold_apps_v(itemsv, start as int, Option::None, false);
    let mut acc: Option<Lambda> = None;
    let mut pending = false;
    let mut i = start;
    while i < items.len()
        invariant
            start <= i <= items@.len(),
            itemsv == items_view(items@),
            full == fold_apps_v(itemsv, start as int, Option::None, false),
            full == fold_apps_v(
                itemsv,
                i as int,
                match acc {
                    None => Option::<LambdaV>::None,
                    Some(t) => Option::<LambdaV>::Some(t@),
                },
                pending,
            ),
        decreases items@.len() - i,
    {
        proof {
            assert(itemsv[i as int] == items@[i as int]@);
        }
        match &items[i] {
            Item::App => {
                if acc.is_some() {
                    pending = true;
                }
            },
            Item::Header(_) => {
                return Err(LambdaError::InvalidSymbol);
            },
            Item::Term(t) => {
                match acc {
                    None => {
                        acc = Some(t.clone());
                        pending = false;
                    },
                    Some(a) => {
                        if pending {
                            acc = Some(Lambda::Reducible(Box::new(a), Box::new(t.clone())));
                            pending = false;
                        } else {
                            return Err(LambdaError::InvalidSymbol);
                        }
                    },
                }
            },
        }
        i = i + 1;
    }
    match acc {
        None => Err(LambdaError::InvalidSymbol),
        Some(t) => Ok(t),
    }
}

fn fold_items(items: Vec<Item>) -> (r: Result<Lambda, LambdaError>)
    ensures
        ({
            let s = fold_items_v(items_view(items@));
            match r {
                Ok(t) => s == Ok::<LambdaV, LambdaError>(t@),
                Err(e) => s == Err::<LambdaV, LambdaError>(e),
            }
        }),
{
    if items.len() == 0 {
        return Err(LambdaError::InvalidSymbol);
    }
    proof {
        assert(items_view(items@)[0] == items@[0]@);
    }
    let is_header = match &items[0] {
        Item::Header(_) => true,
        _ => false,
    };
    if is_header {
        let names = match &items[0] {
            Item::Header(ns) => clone_names(ns),
            _ => Vec::new(),
        };
        match fold_apps(items, 1) {
            Err(e) => Err(e),
            Ok(body) => Ok(wrap_params(names, body)),
        }
    } else {
        fold_apps(items, 0)
    }
}

fn parse_level(chars: &Vec<char>, lo: usize, hi: usize, args: &Vec<Lambda>, k: usize) -> (r:
    Result<(Lambda, usize), LambdaError>)
    requires
        lo <= hi <= chars@.len(),
        k <= args@.len(),
    ensures
        ({
            let s = parse_level_v(chars@, lo as int, hi as int, seq_views(args@), k as nat);
            match r {
                Ok(p) => s == Ok::<(LambdaV, nat), LambdaError>((p.0@, p.1 as nat)) && p.1
                    <= args@.len(),
                Err(e) => s == Err::<(LambdaV, nat), LambdaError>(e),
            }
        }),
    decreases hi - lo,
{
    let ghost argsv = seq_views(args@);
    let ghost k0 = k as nat;
    let ghost full = collect_items_v(chars@, lo as int, hi as int, argsv, k0);
    let mut items: Vec<Item> = Vec::new();
    let mut kk = k;
    let mut i = lo;
    proof {
        assert(items_view(items@) =~= Seq::<ItemV>::empty());
    }
    while i < hi
        invariant
            lo <= i <= hi <= chars@.len(),
            kk <= args@.len(),
            k0 == k as nat,
            argsv == seq_views(args@),
            full == collect_items_v(chars@, lo as int, hi as int, argsv, k0),
            ({
                match collect_items_v(chars@, i as int, hi as int, argsv, kk as nat) {
                    Ok(p) => full == Ok::<(Seq<ItemV>, nat), LambdaError>(
                        (items_view(items@) + p.0, p.1),
                    ),
                    Err(e) => full == Err::<(Seq<ItemV>, nat), LambdaError>(e),
                }
            }),
        decreases hi - i,
    {
        let ghost itemsb = items@;
        let c = chars[i];
        if c == '(' {
            let alpha = i > 0 && chars[i - 1] == '&';
            match find_close(chars, i + 1, hi) {
                None => {
                    return Err(LambdaError::UnclosedBracket);
                },
                Some(j) => {
                    match parse_level(chars, i + 1, j, args, kk) {
                        Err(e) => {
                            return Err(e);
                        },
                        Ok((t, k2)) => {
                            let t2 = if alpha {
                                t.alpha()
                            } else {
                                t
                            };
                            items.push(Item::Term(t2));
                            kk = k2;
                            i = j + 1;
                            proof {
                                assert(items_view(items@) =~= items_view(itemsb) + seq![
                                    items@.last()@,
                                ]);
                                match collect_items_v(chars@, i as int, hi as int, argsv, kk as nat) {
                                    Ok(p) => {
                                        assert(items_view(items@) + p.0 =~= items_view(itemsb) + (
                                        seq![items@.last()@] + p.0));
                                    },
                                    Err(e) => {},
                                }
                            }
                        },
                    }
                },
            }
        } else if c == ')' {
            return Err(LambdaError::UnclosedBracket);
        } else {
            let mut e = i;
            while e < hi && chars[e] != '(' && chars[e] != ')'
                invariant
                    i <= e <= hi <= chars@.len(),
                    run_len(chars@, i as int, hi as int) == (e - i) + run_len(
                        chars@,
                        e as int,
                        hi as int,
                    ),
                decreases hi - e,
            {
                e = e + 1;
            }
            proof {
                assert(run_len(chars@, e as int, hi as int) == 0);
                assert(i + run_len(chars@, i as int, hi as int) == e);
            }
            match tokenize(chars, i, e) {
                Err(er) => {
                    return Err(er);
                },
                Ok(toks) => {
                    match append_token_items(toks, args, kk, &mut items) {
                        Err(er) => {
                            return Err(er);
                        },
                        Ok(k2) => {
                            kk = k2;
                            proof {
                                match collect_items_v(chars@, e as int, hi as int, argsv, kk as nat) {
                                    Ok(p) => {
                                        assert(items_view(items@) + p.0 =~= items_view(itemsb) + (
                                        items_view(items@).skip(itemsb.len() as int) + p.0));
                                        assert(items_view(items@).take(itemsb.len() as int)
                                            =~= items_view(itemsb));
                                    },
                                    Err(er2) => {},
                                }
                            }
                            i = e;
                        },
                    }
                },
            }
        }
    }
    proof {
        assert(items_view(items@) + Seq::<ItemV>::empty() =~= items_view(items@));
    }
    match fold_items(items) {
        Err(e) => Err(e),
        Ok(t) => Ok((t, kk)),
    }
}

impl Lambda {
    /// Parses a source string into a term, splicing the supplied terms, in
    /// order, at its `{}` slots.  The contract is the ghost parsing
    /// pipeline [`parse_source`] exactly: segmentation by brackets,
    /// tokenization of each flat run, and construction of the term, with
    /// every failure reported as a typed error.
    pub fn new(s: &str, f: Vec<Lambda>) -> (r: Result<Lambda, LambdaError>)
        ensures
            ({
                let sp = parse_source(s@, seq_views(f@));
                match r {
                    Ok(t) => sp == Ok::<LambdaV, LambdaError>(t@),
                    Err(e) => sp == Err::<LambdaV, LambdaError>(e),
                }
            }),
    {
        let g = split_graphemes(s);
        let chars = classify_symbols(&g);
        let n = chars.len();
        match parse_level(&chars, 0, n, &f, 0) {
            Err(e) => Err(e),
            Ok((t, used)) => if used == f.len() {
                Ok(t)
            } else {
                Err(LambdaError::MissingSpliceArgument)
            },
        }
    }
}

} // verus!
