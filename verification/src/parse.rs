//! Parsing the header of a type definition out of a token stream: its
//! visibility, kind and name, its generic parameters with their bounds, a
//! `where` clause, and the shape of its body.
//!
//! The routines consume a [`TokenCursor`] from the front.  Bounds and
//! default values are kept as raw token runs, read up to a closing comma or
//! angle bracket at nesting depth zero, so higher-ranked bounds and nested
//! generic arguments pass through unscathed.

use vstd::prelude::*;

use crate::token::{Delimiter, Ident, ParseError, TokenCursor, TokenTree};

verus! {

/// Whether `t` stops a depth-`depth` scan for `stop1`/`stop2`: the
/// punctuation itself at depth zero, or a group opened with a delimiter
/// spelled like one of them.
pub open spec fn spec_stops(t: TokenTree, stop1: char, stop2: char, depth: nat) -> bool {
    match t {
        TokenTree::Punct(p) => depth == 0 && (p.ch == stop1 || p.ch == stop2),
        TokenTree::Group(g) => {
            let open = match g.delimiter {
                Delimiter::Parenthesis => '(',
                Delimiter::Brace => '{',
                Delimiter::Bracket => '[',
            };
            open == stop1 || open == stop2
        },
        _ => false,
    }
}

/// Where a scan for a depth-zero `stop1` or `stop2` stops: the number of
/// tokens before the stopping token, where `<`/`>` track nesting depth and
/// `->` passes through as an arrow; `None` when the stream ends first.
pub open spec fn scan_until(ts: Seq<TokenTree>, stop1: char, stop2: char, depth: nat) -> Option<
    nat,
>
    decreases ts.len(),
{
    if ts.len() == 0 {
        None
    } else if spec_stops(ts[0], stop1, stop2, depth) {
        Some(0)
    } else if ts[0].spec_is_punct('-') {
        if ts.len() >= 2 && ts[1].spec_is_punct('>') {
            match scan_until(ts.skip(2), stop1, stop2, depth) {
                Some(j) => Some(j + 2),
                None => None,
            }
        } else {
            match scan_until(ts.skip(1), stop1, stop2, depth) {
                Some(j) => Some(j + 1),
                None => None,
            }
        }
    } else {
        let d2 = if ts[0].spec_is_punct('<') {
            depth + 1
        } else if ts[0].spec_is_punct('>') && depth > 0 {
            (depth - 1) as nat
        } else {
            depth
        };
        match scan_until(ts.skip(1), stop1, stop2, d2) {
            Some(j) => Some(j + 1),
            None => None,
        }
    }
}

/// A scan that stops does so inside the stream.
pub proof fn lemma_scan_until_bound(ts: Seq<TokenTree>, stop1: char, stop2: char, depth: nat)
    ensures
        scan_until(ts, stop1, stop2, depth) matches Some(j) ==> j < ts.len(),
    decreases ts.len(),
{
    if ts.len() > 0 && !spec_stops(ts[0], stop1, stop2, depth) {
        if ts[0].spec_is_punct('-') {
            if ts.len() >= 2 && ts[1].spec_is_punct('>') {
                lemma_scan_until_bound(ts.skip(2), stop1, stop2, depth);
            } else {
                lemma_scan_until_bound(ts.skip(1), stop1, stop2, depth);
            }
        } else {
            let d2 = if ts[0].spec_is_punct('<') {
                depth + 1
            } else if ts[0].spec_is_punct('>') && depth > 0 {
                (depth - 1) as nat
            } else {
                depth
            };
            lemma_scan_until_bound(ts.skip(1), stop1, stop2, d2);
        }
    }
}

/// Read raw tokens until a depth-zero `stop1` or `stop2`, where `<` and `>`
/// track nesting depth, `->` passes through as an arrow, and a group opened
/// with a delimiter spelled `stop1` or `stop2` also stops.  The stopping
/// token is left in the cursor: the tokens read are exactly those before
/// the point where [`scan_until`] stops, and reading fails exactly when the
/// stream ends without stopping.
pub fn read_tokens_until_punct(
    input: &mut TokenCursor,
    stop1: char,
    stop2: char,
) -> (r: Result<Vec<TokenTree>, ParseError>)
    ensures
        r matches Ok(v) ==> old(input)@ == v@ + final(input)@ && final(input)@.len() >= 1,
        r matches Ok(v) ==> (scan_until(old(input)@, stop1, stop2, 0) matches Some(j) && v@.len()
            == j && v@ == old(input)@.take(j as int) && final(input)@ == old(input)@.skip(
            j as int,
        )),
        r is Err ==> final(input)@.len() <= old(input)@.len() && scan_until(
            old(input)@,
            stop1,
            stop2,
            0,
        ) is None,
{
    let mut out: Vec<TokenTree> = Vec::new();
    let mut depth: usize = 0;
    loop
        invariant
            old(input)@ == out@ + input@,
            depth <= out@.len(),
            match scan_until(input@, stop1, stop2, depth as nat) {
                Some(j) => scan_until(old(input)@, stop1, stop2, 0) == Some(
                    (out@.len() + j) as nat,
                ),
                None => scan_until(old(input)@, stop1, stop2, 0) is None,
            },
        decreases input@.len(),
    {
        let ghost cur = input@;
        let ghost cur_depth = depth as nat;
        let (is_stop, is_open, is_close, is_dash) = match input.peek() {
            Some(t) => match t {
                TokenTree::Punct(p) => (
                    depth == 0 && (p.ch == stop1 || p.ch == stop2),
                    p.ch == '<',
                    p.ch == '>',
                    p.ch == '-',
                ),
                TokenTree::Group(g) => {
                    let open: char = match g.delimiter {
                        Delimiter::Parenthesis => '(',
                        Delimiter::Brace => '{',
                        Delimiter::Bracket => '[',
                    };
                    (open == stop1 || open == stop2, false, false, false)
                },
                _ => (false, false, false, false),
            },
            None => {
                return Err(ParseError::InvalidRustSyntax);
            },
        };
        if is_stop {
            proof {
                assert(scan_until(cur, stop1, stop2, cur_depth) == Some(0nat));
                assert(out@ =~= old(input)@.take(out@.len() as int));
                assert(input@ =~= old(input)@.skip(out@.len() as int));
            }
            return Ok(out);
        }
        if is_dash {
            let t = match input.next_token() {
                Some(t) => t,
                None => {
                    return Err(ParseError::InvalidRustSyntax);
                },
            };
            out.push(t);
            // `->` is an arrow, not a closing angle bracket.
            if input.peek_punct('>') {
                let a = match input.next_token() {
                    Some(a) => a,
                    None => {
                        return Err(ParseError::InvalidRustSyntax);
                    },
                };
                out.push(a);
                proof {
                    assert(input@ =~= cur.skip(2));
                }
            } else {
                proof {
                    assert(input@ =~= cur.skip(1));
                    assert(!(cur.len() >= 2 && cur[1].spec_is_punct('>')));
                }
            }
            continue ;
        }
        if is_open {
            proof {
                broadcast use vstd::std_specs::vec::axiom_spec_len;

                assert(vstd::std_specs::vec::spec_vec_len(&old(input).tokens) == old(
                    input,
                ).tokens@.len());
                assert(input@.len() >= 1);
                assert(depth + 1 <= usize::MAX);
            }
            depth = depth + 1;
        }
        if is_close {
            if depth == 0 {
                // A stray depth-zero `>` that is no stop character: keep it
                // as a plain token.
            } else {
                depth = depth - 1;
            }
        }
        let t = match input.next_token() {
            Some(t) => t,
            None => {
                return Err(ParseError::InvalidRustSyntax);
            },
        };
        out.push(t);
        proof {
            assert(input@ =~= cur.skip(1));
            assert(depth as nat == (if cur[0].spec_is_punct('<') {
                cur_depth + 1
            } else if cur[0].spec_is_punct('>') && cur_depth > 0 {
                (cur_depth - 1) as nat
            } else {
                cur_depth
            }));
        }
    }
}

/// Consume the next token, which must be an identifier.
pub fn expect_ident(input: &mut TokenCursor) -> (r: Result<Ident, ParseError>)
    ensures
        r matches Ok(id) ==> old(input)@.len() >= 1 && old(input)@[0] == TokenTree::Ident(id)
            && final(input)@ == old(input)@.skip(1),
        r is Err ==> *final(input) == *old(input) && !(old(input)@.len() >= 1 && old(input)@[0] is Ident),
{
    let is_ident = match input.peek() {
        Some(t) => matches!(t, TokenTree::Ident(_)),
        None => false,
    };
    if !is_ident {
        return Err(ParseError::ExpectedIdent);
    }
    match input.next_token() {
        Some(TokenTree::Ident(id)) => Ok(id),
        _ => Err(ParseError::ExpectedIdent),
    }
}

/// How many tokens a lifetime parameter occupies at the front of `ts`:
/// tick and name, plus a colon and its constraint run when one follows;
/// `None` when no lifetime parameter starts `ts`.
pub open spec fn scan_lifetime(ts: Seq<TokenTree>) -> Option<nat> {
    if ts.len() >= 2 && ts[0].spec_is_punct('\'') && ts[1] is Ident {
        if ts.len() >= 3 && ts[2].spec_is_punct(':') {
            match scan_until(ts.skip(3), ',', '>', 0) {
                Some(j) => Some((3 + j) as nat),
                None => None,
            }
        } else {
            Some(2)
        }
    } else {
        None
    }
}

/// `lt` is the lifetime parameter written at the front of `ts`: its ident
/// is the name token, and its constraint is exactly the run after the
/// colon (empty when there is none).
pub open spec fn lifetime_matches(ts: Seq<TokenTree>, lt: Lifetime) -> bool {
    match scan_lifetime(ts) {
        Some(n) => ts[1] == TokenTree::Ident(lt.ident) && if n == 2 {
            lt.constraint@.len() == 0
        } else {
            lt.constraint@ == ts.subrange(3, n as int)
        },
        None => false,
    }
}

/// A lifetime parameter, e.g. the `'a: 'b` of `struct Foo<'a: 'b>`.
#[derive(Debug)]
pub struct Lifetime {
    /// The ident of this lifetime.
    pub ident: Ident,
    /// Any constraints that this lifetime may have.
    pub constraint: Vec<TokenTree>,
}

impl Lifetime {
    /// Parse a lifetime parameter; the cursor must be at its `'`.
    pub fn take(input: &mut TokenCursor) -> (r: Result<Lifetime, ParseError>)
        requires
            old(input).spec_peek_punct('\''),
        ensures
            r matches Ok(lt) ==> final(input)@.len() < old(input)@.len() && old(input)@.len() >= 2
                && old(input)@[1] == TokenTree::Ident(lt.ident),
            r matches Ok(lt) ==> (scan_lifetime(old(input)@) matches Some(n) && lifetime_matches(
                old(input)@,
                lt,
            ) && final(input)@ == old(input)@.skip(n as int)),
            r is Err ==> final(input)@.len() <= old(input)@.len() && scan_lifetime(
                old(input)@,
            ) is None,
    {
        let _tick = input.next_token();
        proof {
            assert(input@.len() < old(input)@.len());
            assert(input@ =~= old(input)@.skip(1));
        }
        let ident = expect_ident(input)?;
        proof {
            assert(input@.len() + 2 <= old(input)@.len());
            assert(input@ =~= old(input)@.skip(2));
        }
        let mut constraint: Vec<TokenTree> = Vec::new();
        if input.peek_punct(':') {
            let _colon = input.next_token();
            proof {
                assert(input@.len() + 3 <= old(input)@.len());
                assert(input@ =~= old(input)@.skip(3));
            }
            let ghost before_run = input@;
            constraint = read_tokens_until_punct(input, ',', '>')?;
            proof {
                assert(input@.len() + 3 <= old(input)@.len());
                let j = scan_until(before_run, ',', '>', 0)->Some_0;
                assert(constraint@ =~= old(input)@.subrange(3, (3 + j) as int));
                assert(final(input)@ =~= old(input)@.skip((3 + j) as int));
            }
        } else {
            proof {
                assert(!(old(input)@.len() >= 3 && old(input)@[2].spec_is_punct(':')));
            }
        }
        proof {
            assert(input@.len() < old(input)@.len());
        }
        Ok(Lifetime { ident, constraint })
    }

    /// Whether this lifetime's name spells `s`.
    pub fn is_ident(&self, s: &str) -> (r: bool)
        ensures
            r == (self.ident.name@ == s@),
    {
        self.ident.is_str(s)
    }
}

/// How many tokens a plain type parameter occupies at the front of `ts`:
/// its name, plus a colon or equals sign and the following run when either
/// follows; `None` when no identifier starts `ts`.
pub open spec fn scan_simple(ts: Seq<TokenTree>) -> Option<nat> {
    if ts.len() >= 1 && ts[0] is Ident {
        if ts.len() >= 2 && ts[1].spec_is_punct(':') {
            match scan_until(ts.skip(2), '>', ',', 0) {
                Some(j) => Some((2 + j) as nat),
                None => None,
            }
        } else if ts.len() >= 2 && ts[1].spec_is_punct('=') {
            match scan_until(ts.skip(2), '>', ',', 0) {
                Some(j) => Some((2 + j) as nat),
                None => None,
            }
        } else {
            Some(1)
        }
    } else {
        None
    }
}

/// `sg` is the plain type parameter written at the front of `ts`: its
/// ident is the first token; its constraints are the run after a colon, its
/// default value the run after an equals sign, the other empty.
pub open spec fn simple_matches(ts: Seq<TokenTree>, sg: SimpleGeneric) -> bool {
    match scan_simple(ts) {
        Some(n) => ts[0] == TokenTree::Ident(sg.ident) && if n == 1 {
            sg.constraints@.len() == 0 && sg.default_value@.len() == 0
        } else if ts[1].spec_is_punct(':') {
            sg.constraints@ == ts.subrange(2, n as int) && sg.default_value@.len() == 0
        } else {
            sg.default_value@ == ts.subrange(2, n as int) && sg.constraints@.len() == 0
        },
        None => false,
    }
}

/// A plain type parameter, e.g. the `T: Clone = ()` of
/// `struct Foo<T: Clone = ()>`.
#[derive(Debug)]
pub struct SimpleGeneric {
    /// The ident of this generic.
    pub ident: Ident,
    /// The constraints of this generic, e.g. `T: SomeTrait`.
    pub constraints: Vec<TokenTree>,
    /// The default value of this generic, e.g. `T = ()`.
    pub default_value: Vec<TokenTree>,
}

impl SimpleGeneric {
    /// Parse a type parameter; the cursor must be at its identifier.
    pub fn take(input: &mut TokenCursor) -> (r: Result<SimpleGeneric, ParseError>)
        requires
            old(input)@.len() >= 1 && old(input)@[0] is Ident,
        ensures
            r matches Ok(sg) ==> final(input)@.len() < old(input)@.len() && old(input)@[0]
                == TokenTree::Ident(sg.ident),
            r matches Ok(sg) ==> (scan_simple(old(input)@) matches Some(n) && simple_matches(
                old(input)@,
                sg,
            ) && final(input)@ == old(input)@.skip(n as int)),
            r is Err ==> final(input)@.len() <= old(input)@.len() && scan_simple(
                old(input)@,
            ) is None,
    {
        let ident = expect_ident(input)?;
        proof {
            assert(input@ =~= old(input)@.skip(1));
        }
        let mut constraints: Vec<TokenTree> = Vec::new();
        let mut default_value: Vec<TokenTree> = Vec::new();
        if input.peek_punct(':') {
            let _colon = input.next_token();
            proof {
                assert(input@.len() + 2 <= old(input)@.len());
                assert(input@ =~= old(input)@.skip(2));
            }
            let ghost before_run = input@;
            constraints = read_tokens_until_punct(input, '>', ',')?;
            proof {
                assert(input@.len() + 2 <= old(input)@.len());
                let j = scan_until(before_run, '>', ',', 0)->Some_0;
                assert(constraints@ =~= old(input)@.subrange(2, (2 + j) as int));
                assert(final(input)@ =~= old(input)@.skip((2 + j) as int));
            }
        } else if input.peek_punct('=') {
            let _eq = input.next_token();
            proof {
                assert(input@.len() + 2 <= old(input)@.len());
                assert(input@ =~= old(input)@.skip(2));
            }
            let ghost before_run = input@;
            default_value = read_tokens_until_punct(input, '>', ',')?;
            proof {
                assert(input@.len() + 2 <= old(input)@.len());
                let j = scan_until(before_run, '>', ',', 0)->Some_0;
                assert(default_value@ =~= old(input)@.subrange(2, (2 + j) as int));
                assert(final(input)@ =~= old(input)@.skip((2 + j) as int));
            }
        } else {
            proof {
                assert(!(old(input)@.len() >= 2 && old(input)@[1].spec_is_punct(':')));
                assert(!(old(input)@.len() >= 2 && old(input)@[1].spec_is_punct('=')));
            }
        }
        proof {
            assert(input@.len() < old(input)@.len());
        }
        Ok(SimpleGeneric { ident, constraints, default_value })
    }

    /// The name of this generic, e.g. `T`.
    pub fn name(&self) -> (r: Ident)
        ensures
            r == self.ident,
    {
        self.ident.clone()
    }
}

/// How many tokens a const generic parameter occupies at the front of
/// `ts`: the `const` keyword and the name, plus a colon and the type run
/// when one follows; `None` when two identifiers do not start `ts`.
pub open spec fn scan_const(ts: Seq<TokenTree>) -> Option<nat> {
    if ts.len() >= 2 && ts[0] is Ident && ts[1] is Ident {
        if ts.len() >= 3 && ts[2].spec_is_punct(':') {
            match scan_until(ts.skip(3), '>', ',', 0) {
                Some(j) => Some((3 + j) as nat),
                None => None,
            }
        } else {
            Some(2)
        }
    } else {
        None
    }
}

/// `cg` is the const generic parameter written at the front of `ts`.
pub open spec fn const_matches(ts: Seq<TokenTree>, cg: ConstGeneric) -> bool {
    match scan_const(ts) {
        Some(n) => ts[0] == TokenTree::Ident(cg.const_token) && ts[1] == TokenTree::Ident(cg.ident)
            && if n == 2 {
            cg.constraints@.len() == 0
        } else {
            cg.constraints@ == ts.subrange(3, n as int)
        },
        None => false,
    }
}

/// A const generic parameter, e.g. the `const N: usize` of
/// `struct Foo<const N: usize>`.
#[derive(Debug)]
pub struct ConstGeneric {
    /// The `const` keyword of this generic.
    pub const_token: Ident,
    /// The ident of this generic.
    pub ident: Ident,
    /// The type of this generic, e.g. the `usize` of `const N: usize`.
    pub constraints: Vec<TokenTree>,
}

impl ConstGeneric {
    /// Parse a const generic parameter; the cursor must be at its `const`.
    pub fn take(input: &mut TokenCursor) -> (r: Result<ConstGeneric, ParseError>)
        requires
            old(input)@.len() >= 1 && old(input)@[0] is Ident,
        ensures
            r matches Ok(cg) ==> final(input)@.len() < old(input)@.len() && old(input)@[0]
                == TokenTree::Ident(cg.const_token),
            r matches Ok(cg) ==> (scan_const(old(input)@) matches Some(n) && const_matches(
                old(input)@,
                cg,
            ) && final(input)@ == old(input)@.skip(n as int)),
            r is Err ==> final(input)@.len() <= old(input)@.len() && scan_const(
                old(input)@,
            ) is None,
    {
        let const_token = expect_ident(input)?;
        proof {
            assert(input@ =~= old(input)@.skip(1));
        }
        let ident = expect_ident(input)?;
        proof {
            assert(input@ =~= old(input)@.skip(2));
        }
        let mut constraints: Vec<TokenTree> = Vec::new();
        if input.peek_punct(':') {
            let _colon = input.next_token();
            proof {
                assert(input@.len() + 3 <= old(input)@.len());
                assert(input@ =~= old(input)@.skip(3));
            }
            let ghost before_run = input@;
            constraints = read_tokens_until_punct(input, '>', ',')?;
            proof {
                assert(input@.len() + 3 <= old(input)@.len());
                let j = scan_until(before_run, '>', ',', 0)->Some_0;
                assert(constraints@ =~= old(input)@.subrange(3, (3 + j) as int));
                assert(final(input)@ =~= old(input)@.skip((3 + j) as int));
            }
        } else {
            proof {
                assert(!(old(input)@.len() >= 3 && old(input)@[2].spec_is_punct(':')));
            }
        }
        proof {
            assert(input@.len() < old(input)@.len());
        }
        Ok(ConstGeneric { const_token, ident, constraints })
    }
}

/// A single generic parameter of a type.
#[derive(Debug)]
pub enum Generic {
    /// A lifetime parameter.
    Lifetime(Lifetime),
    /// A plain type parameter.
    Generic(SimpleGeneric),
    /// A const generic parameter.
    Const(ConstGeneric),
}

impl Generic {
    /// Whether this parameter is a lifetime.
    pub open spec fn spec_is_lifetime(&self) -> bool {
        self is Lifetime
    }

    pub fn is_lifetime(&self) -> (r: bool)
        ensures
            r == self.spec_is_lifetime(),
    {
        matches!(self, Generic::Lifetime(_))
    }

    /// The spec-level ident of this parameter.
    pub open spec fn spec_ident(&self) -> Ident {
        match self {
            Generic::Lifetime(lt) => lt.ident,
            Generic::Generic(g) => g.ident,
            Generic::Const(c) => c.ident,
        }
    }

    /// The ident of this parameter.
    pub fn ident(&self) -> (r: &Ident)
        ensures
            *r == self.spec_ident(),
    {
        match self {
            Generic::Lifetime(lt) => &lt.ident,
            Generic::Generic(g) => &g.ident,
            Generic::Const(c) => &c.ident,
        }
    }

    /// Whether this parameter carries constraints to repeat in an impl
    /// header (a const generic always carries its type).
    pub fn has_constraints(&self) -> (r: bool)
        ensures
            r == match self {
                Generic::Lifetime(lt) => lt.constraint@.len() > 0,
                Generic::Generic(g) => g.constraints@.len() > 0,
                Generic::Const(_) => true,
            },
    {
        match self {
            Generic::Lifetime(lt) => lt.constraint.len() > 0,
            Generic::Generic(g) => g.constraints.len() > 0,
            Generic::Const(_) => true,
        }
    }
}

/// The sequence of the plain type parameters among `s`, in order.
pub open spec fn simple_generics_of(s: Seq<Generic>) -> Seq<SimpleGeneric>
    decreases s.len(),
{
    if s.len() == 0 {
        Seq::empty()
    } else {
        let rest = simple_generics_of(s.drop_last());
        match s.last() {
            Generic::Generic(sg) => rest.push(sg),
            _ => rest,
        }
    }
}

/// The sequence of the lifetime parameters among `s`, in order.
pub open spec fn lifetimes_of(s: Seq<Generic>) -> Seq<Lifetime>
    decreases s.len(),
{
    if s.len() == 0 {
        Seq::empty()
    } else {
        let rest = lifetimes_of(s.drop_last());
        match s.last() {
            Generic::Lifetime(lt) => rest.push(lt),
            _ => rest,
        }
    }
}

/// The sequence of the const generic parameters among `s`, in order.
pub open spec fn consts_of(s: Seq<Generic>) -> Seq<ConstGeneric>
    decreases s.len(),
{
    if s.len() == 0 {
        Seq::empty()
    } else {
        let rest = consts_of(s.drop_last());
        match s.last() {
            Generic::Const(c) => rest.push(c),
            _ => rest,
        }
    }
}

/// Whether `t` is the `const` keyword.
pub open spec fn spec_is_const_kw(t: TokenTree) -> bool {
    match t {
        TokenTree::Ident(id) => id.name@ == "const"@,
        _ => false,
    }
}

/// How many tokens the parameter at the front of `ts` occupies, dispatched
/// the way the parameter list is read: a tick starts a lifetime, the
/// `const` keyword a const generic, any other identifier a plain type
/// parameter; `None` when nothing a parameter may start with is there.
pub open spec fn scan_param(ts: Seq<TokenTree>) -> Option<nat> {
    if ts.len() == 0 {
        None
    } else if ts[0].spec_is_punct('\'') {
        scan_lifetime(ts)
    } else if spec_is_const_kw(ts[0]) {
        scan_const(ts)
    } else if ts[0] is Ident {
        scan_simple(ts)
    } else {
        None
    }
}

/// `g` is the parameter written at the front of `ts`, of the kind the
/// dispatch picks there.
pub open spec fn param_matches(ts: Seq<TokenTree>, g: Generic) -> bool {
    ts.len() > 0 && match g {
        Generic::Lifetime(lt) => ts[0].spec_is_punct('\'') && lifetime_matches(ts, lt),
        Generic::Const(cg) => spec_is_const_kw(ts[0]) && const_matches(ts, cg),
        Generic::Generic(sg) => ts[0] is Ident && !spec_is_const_kw(ts[0]) && simple_matches(
            ts,
            sg,
        ),
    }
}

/// How many tokens a whole parameter list occupies at the front of `ts`,
/// the closing `>` included, with one optional comma after each parameter;
/// `None` when the list is malformed or the stream ends first.
pub open spec fn scan_params(ts: Seq<TokenTree>) -> Option<nat>
    decreases ts.len(),
{
    if ts.len() == 0 {
        None
    } else if ts[0].spec_is_punct('>') {
        Some(1)
    } else {
        match scan_param(ts) {
            Some(n) => {
                let c: nat = if n < ts.len() && ts[n as int].spec_is_punct(',') {
                    1
                } else {
                    0
                };
                if n == 0 || n + c > ts.len() {
                    None
                } else {
                    match scan_params(ts.skip((n + c) as int)) {
                        Some(m) => Some((n + c + m) as nat),
                        None => None,
                    }
                }
            },
            None => None,
        }
    }
}

/// `params` are exactly the parameters written at the front of `ts`, in
/// order, up to the closing `>`.
pub open spec fn params_match(ts: Seq<TokenTree>, params: Seq<Generic>) -> bool
    decreases ts.len(),
{
    if ts.len() == 0 {
        false
    } else if ts[0].spec_is_punct('>') {
        params.len() == 0
    } else {
        &&& params.len() > 0
        &&& param_matches(ts, params[0])
        &&& match scan_param(ts) {
            Some(n) => {
                let c: nat = if n < ts.len() && ts[n as int].spec_is_punct(',') {
                    1
                } else {
                    0
                };
                n > 0 && n + c <= ts.len() && params_match(ts.skip((n + c) as int), params.skip(1))
            },
            None => false,
        }
    }
}

/// A parameter that matches the front of `ts` occupies as many tokens as
/// the dispatch scan says, within the stream.
pub proof fn lemma_try_take_step(ts: Seq<TokenTree>, g: Generic, n: nat)
    requires
        param_matches(ts, g),
        scan_param(ts) == Some(n),
    ensures
        0 < n <= ts.len(),
{
    match g {
        Generic::Lifetime(lt) => {
            if scan_lifetime(ts)->Some_0 != 2 {
                lemma_scan_until_bound(ts.skip(3), ',', '>', 0);
            }
        },
        Generic::Const(cg) => {
            if scan_const(ts)->Some_0 != 2 {
                lemma_scan_until_bound(ts.skip(3), '>', ',', 0);
            }
        },
        Generic::Generic(sg) => {
            if scan_simple(ts)->Some_0 != 1 {
                lemma_scan_until_bound(ts.skip(2), '>', ',', 0);
            }
        },
    }
}

/// One step of the parameter-list loop: a parameter (with its optional
/// comma) consumed from the front extends the parsed prefix.
proof fn try_take_step_reassemble(
    whole: Seq<TokenTree>,
    before: Seq<TokenTree>,
    after: Seq<TokenTree>,
    result_before: Seq<Generic>,
    result_after: Seq<Generic>,
    g: Generic,
    n: nat,
)
    requires
        param_matches(before, g),
        scan_param(before) == Some(n),
        0 < n <= before.len(),
        after == before.skip((n + comma_at(before, n)) as int),
        result_after == result_before.push(g),
        whole.len() >= 1,
        before == whole.skip((whole.len() - before.len()) as int),
        before.len() <= whole.len() - 1,
        forall|rest: Seq<Generic>| #[trigger]
            params_match(before, rest) ==> params_match(whole.skip(1), result_before + rest),
        match scan_params(before) {
            Some(m) => scan_params(whole.skip(1)) == Some(
                (whole.len() - 1 - before.len() + m) as nat,
            ),
            None => scan_params(whole.skip(1)) is None,
        },
    ensures
        after == whole.skip((whole.len() - after.len()) as int),
        after.len() <= whole.len() - 1,
        match scan_params(after) {
            Some(m) => scan_params(whole.skip(1)) == Some(
                (whole.len() - 1 - after.len() + m) as nat,
            ),
            None => scan_params(whole.skip(1)) is None,
        },
        forall|rest: Seq<Generic>| #[trigger]
            params_match(after, rest) ==> params_match(whole.skip(1), result_after + rest),
{
    let c = comma_at(before, n);
    assert(!before[0].spec_is_punct('>'));
    assert(after =~= whole.skip((whole.len() - after.len()) as int));
    assert forall|rest: Seq<Generic>| #[trigger]
        params_match(after, rest) implies params_match(whole.skip(1), result_after + rest) by {
        assert((seq![g] + rest)[0] == g);
        assert((seq![g] + rest).skip(1) =~= rest);
        assert(params_match(before, seq![g] + rest));
        assert(result_before + (seq![g] + rest) =~= result_after + rest);
    }
}

/// One when the token after a parameter is a separating comma, else zero.
pub open spec fn comma_at(ts: Seq<TokenTree>, n: nat) -> nat {
    if n < ts.len() && ts[n as int].spec_is_punct(',') {
        1
    } else {
        0
    }
}

/// The generic parameters of a type, in declaration order.
#[derive(Debug)]
pub struct Generics(pub Vec<Generic>);

impl Generics {
    /// Parse `<...>` if the cursor is at a `<`; otherwise leave the cursor
    /// alone and return `None`.  On success the cursor moved past the
    /// matching `>`, and the returned list holds exactly the parameters
    /// written between the brackets, in order, with their constraints and
    /// defaults ([`params_match`]); parsing fails exactly when no
    /// well-formed parameter list follows the `<`, and a token that cannot
    /// start a parameter right after the `<` is reported as invalid syntax.
    pub fn try_take(input: &mut TokenCursor) -> (r: Result<Option<Generics>, ParseError>)
        ensures
            r matches Ok(g) ==> (g is Some <==> old(input).spec_peek_punct('<')),
            r matches Ok(g) && g is None ==> *final(input) == *old(input),
            r matches Ok(g) ==> (g matches Some(gen) ==> (scan_params(old(input)@.skip(1))
                matches Some(n) && final(input)@ == old(input)@.skip(1 + n as int) && params_match(
                old(input)@.skip(1),
                gen.0@,
            ))),
            r is Err ==> old(input).spec_peek_punct('<') && scan_params(
                old(input)@.skip(1),
            ) is None,
            r matches Err(e) ==> (old(input)@.len() <= 1 || !(old(input)@[1].spec_is_punct('\'')
                || old(input)@[1] is Ident) ==> e == ParseError::InvalidRustSyntax),
    {
        if !input.peek_punct('<') {
            return Ok(None);
        }
        let _open = input.next_token();
        proof {
            assert(input@ =~= old(input)@.skip(1));
        }
        let mut result: Vec<Generic> = Vec::new();
        loop
            invariant
                old(input).spec_peek_punct('<'),
                input@.len() <= old(input)@.len() - 1,
                input@ == old(input)@.skip((old(input)@.len() - input@.len()) as int),
                result@.len() == 0 ==> input@ == old(input)@.skip(1),
                result@.len() > 0 ==> old(input)@.len() >= 2 && (old(input)@[1].spec_is_punct(
                    '\'',
                ) || old(input)@[1] is Ident),
                match scan_params(input@) {
                    Some(m) => scan_params(old(input)@.skip(1)) == Some(
                        (old(input)@.len() - 1 - input@.len() + m) as nat,
                    ),
                    None => scan_params(old(input)@.skip(1)) is None,
                },
                forall|rest: Seq<Generic>| #[trigger]
                    params_match(input@, rest) ==> params_match(
                        old(input)@.skip(1),
                        result@ + rest,
                    ),
            decreases input@.len(),
        {
            let ghost before = input@;
            let ghost result_before = result@;
            let kind: u8 = match input.peek() {
                Some(t) => match t {
                    TokenTree::Punct(p) => if p.ch == '\'' {
                        1
                    } else if p.ch == '>' {
                        2
                    } else {
                        0
                    },
                    TokenTree::Ident(id) => if id.is_str("const") {
                        3
                    } else {
                        4
                    },
                    _ => 0,
                },
                None => 0,
            };
            if kind == 1 {
                let lt = match Lifetime::take(input) {
                    Ok(lt) => lt,
                    Err(e) => {
                        proof {
                            assert(scan_param(before) is None);
                            assert(scan_params(before) is None);
                        }
                        return Err(e);
                    },
                };
                let ghost n = scan_lifetime(before)->Some_0;
                proof {
                    lemma_try_take_step(before, Generic::Lifetime(lt), n);
                }
                let _comma = input.consume_punct_if(',');
                result.push(Generic::Lifetime(lt));
                proof {
                    assert(input@ =~= before.skip((n + comma_at(before, n)) as int));
                    try_take_step_reassemble(
                        old(input)@,
                        before,
                        input@,
                        result_before,
                        result@,
                        Generic::Lifetime(lt),
                        n,
                    );
                }
            } else if kind == 2 {
                let _close = input.next_token();
                proof {
                    assert(scan_params(before) == Some(1nat));
                    assert(params_match(before, Seq::<Generic>::empty()));
                    assert(result@ + Seq::<Generic>::empty() =~= result@);
                    assert(input@ =~= before.skip(1));
                    let consumed = (old(input)@.len() - 1 - before.len()) as nat;
                    assert(final(input)@ =~= old(input)@.skip(1 + (consumed + 1) as int));
                }
                return Ok(Some(Generics(result)));
            } else if kind == 3 {
                let cg = match ConstGeneric::take(input) {
                    Ok(cg) => cg,
                    Err(e) => {
                        proof {
                            assert(scan_param(before) is None);
                            assert(scan_params(before) is None);
                        }
                        return Err(e);
                    },
                };
                let ghost n = scan_const(before)->Some_0;
                proof {
                    lemma_try_take_step(before, Generic::Const(cg), n);
                }
                let _comma = input.consume_punct_if(',');
                result.push(Generic::Const(cg));
                proof {
                    assert(input@ =~= before.skip((n + comma_at(before, n)) as int));
                    try_take_step_reassemble(
                        old(input)@,
                        before,
                        input@,
                        result_before,
                        result@,
                        Generic::Const(cg),
                        n,
                    );
                }
            } else if kind == 4 {
                let sg = match SimpleGeneric::take(input) {
                    Ok(sg) => sg,
                    Err(e) => {
                        proof {
                            assert(scan_param(before) is None);
                            assert(scan_params(before) is None);
                        }
                        return Err(e);
                    },
                };
                let ghost n = scan_simple(before)->Some_0;
                proof {
                    lemma_try_take_step(before, Generic::Generic(sg), n);
                }
                let _comma = input.consume_punct_if(',');
                result.push(Generic::Generic(sg));
                proof {
                    assert(input@ =~= before.skip((n + comma_at(before, n)) as int));
                    try_take_step_reassemble(
                        old(input)@,
                        before,
                        input@,
                        result_before,
                        result@,
                        Generic::Generic(sg),
                        n,
                    );
                }
            } else {
                proof {
                    assert(scan_params(before) is None);
                }
                return Err(ParseError::InvalidRustSyntax);
            }
        }
    }

    /// Whether any parameter is a lifetime.
    pub fn has_lifetime(&self) -> (r: bool)
        ensures
            r == exists|i: int| 0 <= i < self.0@.len() && self.0@[i] is Lifetime,
    {
        let n = self.0.len();
        let mut i: usize = 0;
        while i < n
            invariant
                i <= n,
                n == self.0@.len(),
                forall|j: int| 0 <= j < i ==> !(self.0@[j] is Lifetime),
            decreases n - i,
        {
            if self.0[i].is_lifetime() {
                return true;
            }
            i = i + 1;
        }
        false
    }

    /// The plain type parameters, in order.
    pub fn iter_generics(&self) -> (r: Vec<&SimpleGeneric>)
        ensures
            r@.len() == simple_generics_of(self.0@).len(),
            forall|i: int| 0 <= i < r@.len() ==> *r@[i] == simple_generics_of(self.0@)[i],
    {
        let n = self.0.len();
        let mut out: Vec<&SimpleGeneric> = Vec::new();
        let mut i: usize = 0;
        while i < n
            invariant
                i <= n,
                n == self.0@.len(),
                out@.len() == simple_generics_of(self.0@.take(i as int)).len(),
                forall|j: int|
                    0 <= j < out@.len() ==> *out@[j] == simple_generics_of(
                        self.0@.take(i as int),
                    )[j],
            decreases n - i,
        {
            proof {
                assert(self.0@.take(i as int + 1).drop_last() =~= self.0@.take(i as int));
                assert(self.0@.take(i as int + 1).last() == self.0@[i as int]);
            }
            match &self.0[i] {
                Generic::Generic(sg) => {
                    out.push(sg);
                },
                _ => {},
            }
            i = i + 1;
        }
        proof {
            assert(self.0@.take(n as int) =~= self.0@);
        }
        out
    }

    /// The lifetime parameters, in order.
    pub fn iter_lifetimes(&self) -> (r: Vec<&Lifetime>)
        ensures
            r@.len() == lifetimes_of(self.0@).len(),
            forall|i: int| 0 <= i < r@.len() ==> *r@[i] == lifetimes_of(self.0@)[i],
    {
        let n = self.0.len();
        let mut out: Vec<&Lifetime> = Vec::new();
        let mut i: usize = 0;
        while i < n
            invariant
                i <= n,
                n == self.0@.len(),
                out@.len() == lifetimes_of(self.0@.take(i as int)).len(),
                forall|j: int|
                    0 <= j < out@.len() ==> *out@[j] == lifetimes_of(self.0@.take(i as int))[j],
            decreases n - i,
        {
            proof {
                assert(self.0@.take(i as int + 1).drop_last() =~= self.0@.take(i as int));
                assert(self.0@.take(i as int + 1).last() == self.0@[i as int]);
            }
            match &self.0[i] {
                Generic::Lifetime(lt) => {
                    out.push(lt);
                },
                _ => {},
            }
            i = i + 1;
        }
        proof {
            assert(self.0@.take(n as int) =~= self.0@);
        }
        out
    }

    /// The const generic parameters, in order.
    pub fn iter_consts(&self) -> (r: Vec<&ConstGeneric>)
        ensures
            r@.len() == consts_of(self.0@).len(),
            forall|i: int| 0 <= i < r@.len() ==> *r@[i] == consts_of(self.0@)[i],
    {
        let n = self.0.len();
        let mut out: Vec<&ConstGeneric> = Vec::new();
        let mut i: usize = 0;
        while i < n
            invariant
                i <= n,
                n == self.0@.len(),
                out@.len() == consts_of(self.0@.take(i as int)).len(),
                forall|j: int|
                    0 <= j < out@.len() ==> *out@[j] == consts_of(self.0@.take(i as int))[j],
            decreases n - i,
        {
            proof {
                assert(self.0@.take(i as int + 1).drop_last() =~= self.0@.take(i as int));
                assert(self.0@.take(i as int + 1).last() == self.0@[i as int]);
            }
            match &self.0[i] {
                Generic::Const(c) => {
                    out.push(c);
                },
                _ => {},
            }
            i = i + 1;
        }
        proof {
            assert(self.0@.take(n as int) =~= self.0@);
        }
        out
    }
}

/// The constraints of a `where` clause, as raw tokens.
#[derive(Debug)]
pub struct GenericConstraints {
    pub constraints: Vec<TokenTree>,
}

impl Default for GenericConstraints {
    fn default() -> (r: Self)
        ensures
            r.constraints@ == Seq::<TokenTree>::empty(),
    {
        GenericConstraints { constraints: Vec::new() }
    }
}

impl GenericConstraints {
    /// Parse a `where` clause if the cursor is at the `where` keyword;
    /// otherwise leave the cursor alone and return `None`.  On success the
    /// held constraints are exactly the tokens after `where` up to (not
    /// including) the next top-level brace or parenthesis group, which stays
    /// in the cursor; parsing fails exactly when the stream ends before
    /// one.
    pub fn try_take(input: &mut TokenCursor) -> (r: Result<
        Option<GenericConstraints>,
        ParseError,
    >)
        ensures
            r matches Ok(g) ==> (g is Some <==> old(input).spec_peek_ident("where"@)),
            r matches Ok(g) && g is None ==> *final(input) == *old(input),
            r matches Ok(g) ==> (g matches Some(gc) ==> (scan_until(old(input)@.skip(1), '{', '(', 0)
                matches Some(j) && gc.constraints@ == old(input)@.skip(1).take(j as int)
                && final(input)@ == old(input)@.skip(1 + j as int))),
            r is Err ==> old(input).spec_peek_ident("where"@) && scan_until(
                old(input)@.skip(1),
                '{',
                '(',
                0,
            ) is None,
    {
        if !input.peek_ident("where") {
            return Ok(None);
        }
        let _kw = input.next_token();
        proof {
            assert(input@ =~= old(input)@.skip(1));
        }
        let ghost before_run = input@;
        let constraints = read_tokens_until_punct(input, '{', '(')?;
        proof {
            let j = scan_until(before_run, '{', '(', 0)->Some_0;
            assert(final(input)@ =~= old(input)@.skip(1 + j as int));
        }
        Ok(Some(GenericConstraints { constraints }))
    }

    /// Remove all constraints.
    pub fn clear(&mut self)
        ensures
            final(self).constraints@ == Seq::<TokenTree>::empty(),
    {
        self.constraints.clear();
    }

    /// Whether a separating comma is needed before another constraint.
    fn needs_comma(&self) -> (r: bool)
        ensures
            r == (self.constraints@.len() > 0 && !self.constraints@.last().spec_is_punct(',')),
    {
        let n = self.constraints.len();
        if n == 0 {
            false
        } else {
            !self.constraints[n - 1].is_punct(',')
        }
    }

    /// Append the constraint `generic: bound` for the given type parameter,
    /// separated from what is already there.
    pub fn push_constraint(&mut self, generic: &SimpleGeneric, constraint: &str) -> (r: Result<
        (),
        ParseError,
    >)
        ensures
            r is Ok ==> ({
                let sep: nat = if old(self).constraints@.len() > 0 && !old(
                    self,
                ).constraints@.last().spec_is_punct(',') {
                    1
                } else {
                    0
                };
                let base = old(self).constraints@.len() + sep;
                &&& final(self).constraints@.len() >= base + 2
                &&& final(self).constraints@.take(old(self).constraints@.len() as int) == old(
                    self,
                ).constraints@
                &&& (sep == 1 ==> final(self).constraints@[old(self).constraints@.len() as int].spec_is_punct(
                    ',',
                ))
                &&& final(self).constraints@[base as int] == TokenTree::Ident(generic.ident)
                &&& final(self).constraints@[base as int + 1].spec_is_punct(':')
            }),
            r is Err ==> *final(self) == *old(self),
    {
        let toks = match crate::token::token_stream(constraint) {
            Ok(c) => c,
            Err(e) => {
                return Err(e);
            },
        };
        let ghost pre = self.constraints@;
        if self.needs_comma() {
            self.constraints.push(TokenTree::Punct(crate::token::Punct { ch: ',' }));
        }
        self.constraints.push(TokenTree::Ident(generic.ident.clone()));
        self.constraints.push(TokenTree::Punct(crate::token::Punct { ch: ':' }));
        let mut rest = toks.tokens;
        self.constraints.append(&mut rest);
        proof {
            assert(final(self).constraints@.take(pre.len() as int) =~= pre);
        }
        Ok(())
    }

    /// Append an already-written constraint such as `u32: SomeTrait`,
    /// separated from what is already there.
    pub fn push_parsed_constraint(&mut self, constraint: &str) -> (r: Result<(), ParseError>)
        ensures
            r is Ok ==> final(self).constraints@.len() >= old(self).constraints@.len() && final(self).constraints@.take(old(self).constraints@.len() as int) == old(self).constraints@,
            r is Err ==> *final(self) == *old(self),
    {
        let toks = match crate::token::token_stream(constraint) {
            Ok(c) => c,
            Err(e) => {
                return Err(e);
            },
        };
        if self.constraints.len() > 0 {
            self.constraints.push(TokenTree::Punct(crate::token::Punct { ch: ',' }));
        }
        let mut rest = toks.tokens;
        self.constraints.append(&mut rest);
        Ok(())
    }
}

/// The kind of a type definition.
#[derive(Clone, Copy, PartialEq, Eq, Structural, Debug)]
pub enum DataType {
    Struct,
    Enum,
}

impl DataType {
    /// Parse `struct Name` or `enum Name`.
    pub fn take(input: &mut TokenCursor) -> (r: Result<(DataType, Ident), ParseError>)
        ensures
            r matches Ok((dt, _)) ==> final(input)@.len() < old(input)@.len() && (dt
                == DataType::Struct <==> old(input).spec_peek_ident("struct"@)),
            r is Err ==> final(input)@.len() <= old(input)@.len(),
    {
        if input.peek_ident("struct") {
            let _kw = input.next_token();
            let name = expect_ident(input)?;
            Ok((DataType::Struct, name))
        } else if input.peek_ident("enum") {
            let _kw = input.next_token();
            let name = expect_ident(input)?;
            Ok((DataType::Enum, name))
        } else {
            Err(ParseError::InvalidRustSyntax)
        }
    }
}

/// The visibility of a definition or field.
#[derive(Clone, Copy, PartialEq, Eq, Structural, Debug)]
pub enum Visibility {
    Default,
    Pub,
}

impl Visibility {
    /// Parse `pub` or `pub(...)` if present.
    pub fn try_take(input: &mut TokenCursor) -> (r: Result<Visibility, ParseError>)
        ensures
            r matches Ok(v) ==> (v == Visibility::Pub <==> old(input).spec_peek_ident("pub"@)),
            r matches Ok(v) && v == Visibility::Default ==> *final(input) == *old(input),
            final(input)@.len() <= old(input)@.len(),
    {
        if input.peek_ident("pub") {
            let _kw = input.next_token();
            let is_scope = match input.peek() {
                Some(t) => match t {
                    TokenTree::Group(g) => matches!(g.delimiter, Delimiter::Parenthesis),
                    _ => false,
                },
                None => false,
            };
            if is_scope {
                let _scope = input.next_token();
            }
            Ok(Visibility::Pub)
        } else {
            Ok(Visibility::Default)
        }
    }
}

/// A named field of a struct body.
#[derive(Debug)]
pub struct StructField {
    pub name: Ident,
    pub ty: Vec<TokenTree>,
}

/// An unnamed field of a tuple struct body.
#[derive(Debug)]
pub struct TupleField {
    pub ty: Vec<TokenTree>,
}

/// The fields of a struct body.
#[derive(Debug)]
pub enum Fields {
    Struct(Vec<StructField>),
    Tuple(Vec<TupleField>),
}

/// The body of a struct definition: named fields, tuple fields, or none
/// for a unit struct.
#[derive(Debug)]
pub struct StructBody {
    pub fields: Option<Fields>,
}

/// Read a field type: raw tokens up to a depth-zero comma or the end of the
/// stream.
fn read_field_type(input: &mut TokenCursor) -> (r: Vec<TokenTree>)
    ensures
        old(input)@ == r@ + final(input)@,
{
    let mut out: Vec<TokenTree> = Vec::new();
    let mut depth: usize = 0;
    loop
        invariant
            old(input)@ == out@ + input@,
            depth <= out@.len(),
        decreases input@.len(),
    {
        let (is_stop, is_open, is_close) = match input.peek() {
            Some(t) => match t {
                TokenTree::Punct(p) => (depth == 0 && p.ch == ',', p.ch == '<', p.ch == '>'),
                _ => (false, false, false),
            },
            None => (true, false, false),
        };
        if is_stop {
            return out;
        }
        if is_open {
            proof {
                broadcast use vstd::std_specs::vec::axiom_spec_len;

                assert(vstd::std_specs::vec::spec_vec_len(&old(input).tokens) == old(
                    input,
                ).tokens@.len());
                assert(input@.len() >= 1);
                assert(depth + 1 <= usize::MAX);
            }
            depth = depth + 1;
        }
        if is_close && depth > 0 {
            depth = depth - 1;
        }
        match input.next_token() {
            Some(t) => {
                out.push(t);
            },
            None => {
                return out;
            },
        }
    }
}

impl StructBody {
    /// Parse a struct body: a brace group of named fields, a parenthesis
    /// group of tuple fields, or nothing for a unit struct.
    pub fn take(input: &mut TokenCursor) -> (r: Result<StructBody, ParseError>)
        ensures
            r is Ok ==> final(input)@.len() <= old(input)@.len(),
    {
        let shape: u8 = match input.peek() {
            Some(t) => match t {
                TokenTree::Group(g) => match g.delimiter {
                    Delimiter::Brace => 1,
                    Delimiter::Parenthesis => 2,
                    Delimiter::Bracket => 3,
                },
                _ => 0,
            },
            None => 0,
        };
        if shape == 3 {
            return Err(ParseError::InvalidRustSyntax);
        }
        if shape == 0 {
            Ok(StructBody { fields: None })
        } else if shape == 1 {
                let body = match input.next_token() {
                    Some(TokenTree::Group(g)) => g,
                    _ => {
                        return Err(ParseError::InvalidRustSyntax);
                    },
                };
                let mut inner = TokenCursor::new(body.stream);
                let ghost input_snap = *input;
                let mut fields: Vec<StructField> = Vec::new();
                loop
                    invariant
                        *input == input_snap,
                        input_snap@.len() <= old(input)@.len(),
                    decreases inner@.len(),
                {
                    let done = match inner.peek() {
                        Some(_) => false,
                        None => true,
                    };
                    if done {
                        return Ok(StructBody { fields: Some(Fields::Struct(fields)) });
                    }
                    let _vis = Visibility::try_take(&mut inner)?;
                    let ghost len_before = inner@.len();
                    let name = expect_ident(&mut inner)?;
                    if !input_expect_colon(&mut inner) {
                        return Err(ParseError::InvalidRustSyntax);
                    }
                    let ty = read_field_type(&mut inner);
                    let _comma = inner.consume_punct_if(',');
                    fields.push(StructField { name, ty });
                    proof {
                        assert(inner@.len() < len_before);
                    }
                }
        } else {
                let body = match input.next_token() {
                    Some(TokenTree::Group(g)) => g,
                    _ => {
                        return Err(ParseError::InvalidRustSyntax);
                    },
                };
                let mut inner = TokenCursor::new(body.stream);
                let ghost input_snap = *input;
                let mut fields: Vec<TupleField> = Vec::new();
                loop
                    invariant
                        *input == input_snap,
                        input_snap@.len() <= old(input)@.len(),
                    decreases inner@.len(),
                {
                    let done = match inner.peek() {
                        Some(_) => false,
                        None => true,
                    };
                    if done {
                        return Ok(StructBody { fields: Some(Fields::Tuple(fields)) });
                    }
                    let _vis = Visibility::try_take(&mut inner)?;
                    let ghost len_before = inner@.len();
                    let ty = read_field_type(&mut inner);
                    if ty.len() == 0 {
                        return Err(ParseError::InvalidRustSyntax);
                    }
                    let _comma = inner.consume_punct_if(',');
                    fields.push(TupleField { ty });
                    proof {
                        assert(inner@.len() < len_before);
                    }
                }
        }
    }
}

/// Consume a `:` and report whether it was there.
fn input_expect_colon(input: &mut TokenCursor) -> (r: bool)
    ensures
        r ==> final(input)@.len() < old(input)@.len(),
        !r ==> *final(input) == *old(input),
{
    input.consume_punct_if(':')
}

/// Where an attribute may sit.
#[derive(Clone, Copy, PartialEq, Eq, Structural, Debug)]
pub enum AttributeLocation {
    Container,
    Variant,
    Field,
}

/// One `#[...]` attribute, as the raw tokens between the brackets.
#[derive(Debug)]
pub struct Attribute {
    pub location: AttributeLocation,
    pub tokens: Vec<TokenTree>,
}

impl Attribute {
    /// Parse any attributes at the cursor.
    pub fn try_take(location: AttributeLocation, input: &mut TokenCursor) -> (r: Result<
        Vec<Attribute>,
        ParseError,
    >)
        ensures
            r is Ok ==> final(input)@.len() <= old(input)@.len(),
            !old(input).spec_peek_punct('#') ==> (r matches Ok(v) && v@.len() == 0 && *final(input)
                == *old(input)),
    {
        let mut out: Vec<Attribute> = Vec::new();
        loop
            invariant
                input@.len() <= old(input)@.len(),
                !old(input).spec_peek_punct('#') ==> out@.len() == 0 && *input == *old(input),
            decreases input@.len(),
        {
            if !input.peek_punct('#') {
                return Ok(out);
            }
            let _hash = input.next_token();
            let body = match input.next_token() {
                Some(TokenTree::Group(g)) => match g.delimiter {
                    Delimiter::Bracket => g,
                    _ => {
                        return Err(ParseError::InvalidRustSyntax);
                    },
                },
                _ => {
                    return Err(ParseError::InvalidRustSyntax);
                },
            };
            out.push(Attribute { location, tokens: body.stream });
        }
    }
}

} // verus!
