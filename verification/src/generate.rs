//! Generating an `impl` block for a parsed type, as a token stream.
//!
//! [`StreamBuilder`] accumulates token trees; [`ImplFor`] collects the
//! pieces of a trait implementation — attributes, lifetimes, generic
//! parameters, associated types and consts, functions — and assembles the
//! whole block with [`ImplFor::finish`].

use vstd::prelude::*;

use crate::parse::{Generic, GenericConstraints, Generics};
use crate::token::{Delimiter, Group, Ident, ParseError, Punct, TokenTree};

verus! {

/// An accumulator of token trees.
#[derive(Debug)]
pub struct StreamBuilder {
    pub stream: Vec<TokenTree>,
}

impl StreamBuilder {
    pub open spec fn view(&self) -> Seq<TokenTree> {
        self.stream@
    }

    pub fn new() -> (r: StreamBuilder)
        ensures
            r@ == Seq::<TokenTree>::empty(),
    {
        StreamBuilder { stream: Vec::new() }
    }

    /// Append one token.
    pub fn push(&mut self, t: TokenTree)
        ensures
            final(self)@ == old(self)@.push(t),
    {
        self.stream.push(t);
    }

    /// Append one punctuation character.
    pub fn punct(&mut self, c: char)
        ensures
            final(self)@ == old(self)@.push(TokenTree::Punct(Punct { ch: c })),
    {
        self.stream.push(TokenTree::Punct(Punct { ch: c }));
    }

    /// Append one identifier.
    pub fn ident(&mut self, id: Ident)
        ensures
            final(self)@ == old(self)@.push(TokenTree::Ident(id)),
    {
        self.stream.push(TokenTree::Ident(id));
    }

    /// Append one identifier spelled `s`.
    pub fn ident_str(&mut self, s: &str)
        ensures
            final(self)@.len() == old(self)@.len() + 1,
            final(self)@.take(old(self)@.len() as int) == old(self)@,
            final(self)@.last() matches TokenTree::Ident(id) && id.name@ == s@,
    {
        let id = Ident::new(s.to_owned());
        proof {
            assert(old(self)@.push(TokenTree::Ident(id)).take(old(self)@.len() as int) =~= old(
                self,
            )@);
        }
        self.stream.push(TokenTree::Ident(id));
    }

    /// Append a lifetime: a tick followed by its name.
    pub fn lifetime(&mut self, id: Ident)
        ensures
            final(self)@ == old(self)@.push(TokenTree::Punct(Punct { ch: '\'' })).push(
                TokenTree::Ident(id),
            ),
    {
        self.stream.push(TokenTree::Punct(Punct { ch: '\'' }));
        self.stream.push(TokenTree::Ident(id));
    }

    /// Append a lifetime spelled `s`.
    pub fn lifetime_str(&mut self, s: &str)
        ensures
            final(self)@.len() == old(self)@.len() + 2,
            final(self)@.take(old(self)@.len() as int) == old(self)@,
            final(self)@[old(self)@.len() as int] == TokenTree::Punct(Punct { ch: '\'' }),
            final(self)@.last() matches TokenTree::Ident(id) && id.name@ == s@,
    {
        let ghost pre = self@;
        self.punct('\'');
        let ghost mid = self@;
        self.ident_str(s);
        proof {
            assert(self@.take(pre.len() as int) =~= pre);
            assert(self@[pre.len() as int] == mid[pre.len() as int]);
        }
    }

    /// Append every token of `tokens`, in order.
    pub fn extend(&mut self, tokens: Vec<TokenTree>)
        ensures
            final(self)@ == old(self)@ + tokens@,
    {
        let mut rest = tokens;
        self.stream.append(&mut rest);
    }

    /// Append everything another builder accumulated.
    pub fn append(&mut self, other: StreamBuilder)
        ensures
            final(self)@ == old(self)@ + other@,
    {
        self.extend(other.stream);
    }

    /// Lex `s` and append its token trees.
    pub fn push_parsed(&mut self, s: &str) -> (r: Result<(), ParseError>)
        ensures
            r is Ok ==> final(self)@.len() >= old(self)@.len() && final(self)@.take(
                old(self)@.len() as int,
            ) == old(self)@,
            r is Err ==> *final(self) == *old(self),
    {
        let toks = match crate::token::token_stream(s) {
            Ok(c) => c,
            Err(e) => {
                return Err(e);
            },
        };
        let ghost pre = self@;
        self.extend(toks.tokens);
        proof {
            assert(self@.take(pre.len() as int) =~= pre);
        }
        Ok(())
    }

    /// Append a delimited group holding everything `inner` accumulated.
    pub fn group(&mut self, delimiter: Delimiter, inner: StreamBuilder)
        ensures
            final(self)@ == old(self)@.push(
                TokenTree::Group(Group { delimiter, stream: inner.stream }),
            ),
    {
        self.stream.push(TokenTree::Group(Group { delimiter, stream: inner.stream }));
    }
}

/// Append `<'a, 'b, ..., T, U, ...>` to `builder`; nothing when both lists
/// are empty.
pub fn append_lifetimes_and_generics(
    builder: &mut StreamBuilder,
    lifetimes: &Vec<String>,
    generics: &Vec<String>,
)
    ensures
        final(builder)@.len() >= old(builder)@.len(),
        final(builder)@.take(old(builder)@.len() as int) == old(builder)@,
        lifetimes@.len() == 0 && generics@.len() == 0 ==> *final(builder) == *old(builder),
        !(lifetimes@.len() == 0 && generics@.len() == 0) ==> ({
            &&& final(builder)@.len() >= old(builder)@.len() + 2
            &&& final(builder)@[old(builder)@.len() as int] == TokenTree::Punct(Punct { ch: '<' })
            &&& final(builder)@.last() == TokenTree::Punct(Punct { ch: '>' })
        }),
{
    proof {
        assert(builder@.take(builder@.len() as int) =~= builder@);
    }
    if lifetimes.len() == 0 && generics.len() == 0 {
        return ;
    }
    let ghost pre = builder@;
    builder.punct('<');
    let mut i: usize = 0;
    while i < lifetimes.len()
        invariant
            builder@.len() > pre.len(),
            builder@.take(pre.len() as int) == pre,
            builder@[pre.len() as int] == TokenTree::Punct(Punct { ch: '<' }),
        decreases lifetimes@.len() - i,
    {
        let ghost mid = builder@;
        if i > 0 {
            builder.punct(',');
        }
        let ghost mid2 = builder@;
        builder.lifetime_str(lifetimes[i].as_str());
        proof {
            assert(builder@.take(pre.len() as int) =~= pre);
            assert(mid2[pre.len() as int] == mid[pre.len() as int]);
            assert(builder@.take(mid2.len() as int)[pre.len() as int] == builder@[pre.len() as int]);
        }
        i = i + 1;
    }
    let mut j: usize = 0;
    while j < generics.len()
        invariant
            builder@.len() > pre.len(),
            builder@.take(pre.len() as int) == pre,
            builder@[pre.len() as int] == TokenTree::Punct(Punct { ch: '<' }),
        decreases generics@.len() - j,
    {
        let ghost mid = builder@;
        if j > 0 || lifetimes.len() > 0 {
            builder.punct(',');
        }
        let ghost mid2 = builder@;
        builder.ident_str(generics[j].as_str());
        proof {
            assert(builder@.take(pre.len() as int) =~= pre);
            assert(mid2[pre.len() as int] == mid[pre.len() as int]);
            assert(builder@.take(mid2.len() as int)[pre.len() as int] == builder@[pre.len() as int]);
        }
        j = j + 1;
    }
    builder.punct('>');
    proof {
        assert(builder@.take(pre.len() as int) =~= pre);
    }
}

impl Generic {
    /// Append this parameter with its constraints, as it appears between
    /// `impl <` and `>`.
    pub fn append_to_result_with_constraints(self, builder: &mut StreamBuilder)
        ensures
            final(builder)@ == old(builder)@ + spec_param_tokens(self),
    {
        let ghost pre = builder@;
        let has = self.has_constraints();
        match self {
            Generic::Lifetime(lt) => {
                builder.lifetime(lt.ident);
                if has {
                    builder.punct(':');
                    builder.extend(lt.constraint);
                }
            },
            Generic::Generic(g) => {
                builder.ident(g.ident);
                if has {
                    builder.punct(':');
                    builder.extend(g.constraints);
                }
            },
            Generic::Const(c) => {
                builder.ident(c.const_token);
                builder.ident(c.ident);
                if has {
                    builder.punct(':');
                    builder.extend(c.constraints);
                }
            },
        }
        proof {
            assert(builder@ =~= pre + spec_param_tokens(self));
        }
    }
}

/// The tokens of one generic parameter as it appears between `impl <` and
/// `>`: its name, and a colon with its constraints where it carries any (a
/// const generic always carries its type).
pub open spec fn spec_param_tokens(g: Generic) -> Seq<TokenTree> {
    match g {
        Generic::Lifetime(lt) => seq![
            TokenTree::Punct(Punct { ch: '\'' }),
            TokenTree::Ident(lt.ident),
        ] + if lt.constraint@.len() > 0 {
            seq![TokenTree::Punct(Punct { ch: ':' })] + lt.constraint@
        } else {
            Seq::empty()
        },
        Generic::Generic(sg) => seq![TokenTree::Ident(sg.ident)] + if sg.constraints@.len() > 0 {
            seq![TokenTree::Punct(Punct { ch: ':' })] + sg.constraints@
        } else {
            Seq::empty()
        },
        Generic::Const(cg) => seq![
            TokenTree::Ident(cg.const_token),
            TokenTree::Ident(cg.ident),
            TokenTree::Punct(Punct { ch: ':' }),
        ] + cg.constraints@,
    }
}

/// The trailing items of a comma-separated parameter list: a comma before
/// each.
pub open spec fn trailing_param_tokens(params: Seq<Generic>) -> Seq<TokenTree>
    decreases params.len(),
{
    if params.len() == 0 {
        Seq::empty()
    } else {
        seq![TokenTree::Punct(Punct { ch: ',' })] + spec_param_tokens(params[0])
            + trailing_param_tokens(params.skip(1))
    }
}

/// A comma-separated parameter list, each parameter with its constraints.
pub open spec fn joined_param_tokens(params: Seq<Generic>) -> Seq<TokenTree> {
    if params.len() == 0 {
        Seq::empty()
    } else {
        spec_param_tokens(params[0]) + trailing_param_tokens(params.skip(1))
    }
}

/// Appending one parameter extends the joined list at its end.
pub proof fn lemma_joined_param_snoc(params: Seq<Generic>)
    requires
        params.len() >= 1,
    ensures
        joined_param_tokens(params) == joined_param_tokens(params.drop_last()) + (if params.len()
            == 1 {
            spec_param_tokens(params.last())
        } else {
            seq![TokenTree::Punct(Punct { ch: ',' })] + spec_param_tokens(params.last())
        }),
    decreases params.len(),
{
    if params.len() == 1 {
        assert(params.drop_last() =~= Seq::<Generic>::empty());
        assert(params.skip(1) =~= Seq::<Generic>::empty());
        assert(joined_param_tokens(params) =~= joined_param_tokens(params.drop_last())
            + spec_param_tokens(params.last()));
    } else {
        let tail = params.skip(1);
        lemma_joined_param_snoc(tail);
        assert(tail.drop_last() =~= params.drop_last().skip(1));
        assert(tail.last() == params.last());
        assert(params.drop_last()[0] == params[0]);
        lemma_trailing_param_snoc(tail);
        assert(joined_param_tokens(params) =~= joined_param_tokens(params.drop_last()) + (seq![
            TokenTree::Punct(Punct { ch: ',' }),
        ] + spec_param_tokens(params.last())));
    }
}

proof fn lemma_trailing_param_snoc(params: Seq<Generic>)
    requires
        params.len() >= 1,
    ensures
        trailing_param_tokens(params) == trailing_param_tokens(params.drop_last()) + seq![
            TokenTree::Punct(Punct { ch: ',' }),
        ] + spec_param_tokens(params.last()),
    decreases params.len(),
{
    if params.len() == 1 {
        assert(params.drop_last() =~= Seq::<Generic>::empty());
        assert(params.skip(1) =~= Seq::<Generic>::empty());
        assert(trailing_param_tokens(params) =~= trailing_param_tokens(params.drop_last()) + seq![
            TokenTree::Punct(Punct { ch: ',' }),
        ] + spec_param_tokens(params.last()));
    } else {
        let tail = params.skip(1);
        lemma_trailing_param_snoc(tail);
        assert(tail.drop_last() =~= params.drop_last().skip(1));
        assert(tail.last() == params.last());
        assert(params.drop_last()[0] == params[0]);
        assert(trailing_param_tokens(params) =~= trailing_param_tokens(params.drop_last()) + seq![
            TokenTree::Punct(Punct { ch: ',' }),
        ] + spec_param_tokens(params.last()));
    }
}

/// The tokens of one parameter name as it appears after the type's own
/// name: a lifetime keeps its tick, everything else is just its ident.
pub open spec fn type_param_tokens(g: Generic) -> Seq<TokenTree> {
    if g is Lifetime {
        seq![TokenTree::Punct(Punct { ch: '\'' }), TokenTree::Ident(g.spec_ident())]
    } else {
        seq![TokenTree::Ident(g.spec_ident())]
    }
}

/// A comma-separated list of parameter names.
pub open spec fn joined_type_tokens(params: Seq<Generic>) -> Seq<TokenTree>
    decreases params.len(),
{
    if params.len() == 0 {
        Seq::empty()
    } else {
        joined_type_tokens(params.drop_last()) + (if params.len() == 1 {
            Seq::empty()
        } else {
            seq![TokenTree::Punct(Punct { ch: ',' })]
        }) + type_param_tokens(params.last())
    }
}

impl Generics {
    /// Render `<...>` with every parameter and its constraints, plus the
    /// given extra lifetimes first and extra type parameters last.
    pub fn impl_generics_with_additional(
        self,
        lifetimes: &Vec<String>,
        types: &Vec<String>,
    ) -> (r: StreamBuilder)
        ensures
            r@.len() >= 2,
            r@[0] == TokenTree::Punct(Punct { ch: '<' }),
            r@.last() == TokenTree::Punct(Punct { ch: '>' }),
            lifetimes@.len() == 0 && types@.len() == 0 ==> r@ == seq![
                TokenTree::Punct(Punct { ch: '<' }),
            ] + joined_param_tokens(self.0@) + seq![TokenTree::Punct(Punct { ch: '>' })],
    {
        let ghost exact = lifetimes@.len() == 0 && types@.len() == 0;
        let mut result = StreamBuilder::new();
        result.punct('<');
        let mut is_first = true;
        let mut i: usize = 0;
        while i < lifetimes.len()
            invariant
                result@.len() >= 1,
                result@[0] == TokenTree::Punct(Punct { ch: '<' }),
                exact ==> i == 0 && result@ == seq![TokenTree::Punct(Punct { ch: '<' })],
                is_first <==> (i == 0),
                exact == (lifetimes@.len() == 0 && types@.len() == 0),
            decreases lifetimes@.len() - i,
        {
            let ghost pre = result@;
            if !is_first {
                result.punct(',');
            }
            let ghost mid = result@;
            is_first = false;
            result.lifetime_str(lifetimes[i].as_str());
            i = i + 1;
            proof {
                assert(mid[0] == pre[0]);
                assert(result@.take(mid.len() as int)[0] == mid[0]);
                assert(result@[0] == pre[0]);
            }
        }
        let mut own = self.0;
        let had_own = own.len() > 0;
        let ghost own0 = own@;
        proof {
            assert(own@ =~= own0.skip(0));
            if exact {
                assert(own0.take(0) =~= Seq::<Generic>::empty());
                assert(result@ =~= seq![TokenTree::Punct(Punct { ch: '<' })]
                    + joined_param_tokens(own0.take(0)));
            }
        }
        while own.len() > 0
            invariant
                result@.len() >= 1,
                result@[0] == TokenTree::Punct(Punct { ch: '<' }),
                exact == (lifetimes@.len() == 0 && types@.len() == 0),
                own@.len() <= own0.len(),
                own@ == own0.skip((own0.len() - own@.len()) as int),
                is_first ==> own0.len() - own@.len() == 0 && lifetimes@.len() == 0,
                exact ==> (is_first <==> own0.len() == own@.len()),
                exact ==> result@ == seq![TokenTree::Punct(Punct { ch: '<' })]
                    + joined_param_tokens(own0.take((own0.len() - own@.len()) as int)),
            decreases own@.len(),
        {
            let ghost k = (own0.len() - own@.len()) as int;
            let ghost result_pre = result@;
            let g = own.remove(0);
            proof {
                assert(own0.take(k + 1).drop_last() =~= own0.take(k));
                assert(own0.take(k + 1).last() == own0[k]);
                assert(g == own0[k]);
                assert(own@ =~= own0.skip(k + 1));
                if exact {
                    lemma_joined_param_snoc(own0.take(k + 1));
                }
            }
            if !is_first {
                result.punct(',');
            }
            is_first = false;
            g.append_to_result_with_constraints(&mut result);
            proof {
                assert(result@[0] == result_pre[0]);
                if exact {
                    assert(result@ =~= seq![TokenTree::Punct(Punct { ch: '<' })]
                        + joined_param_tokens(own0.take(k + 1)));
                }
            }
        }
        let mut j: usize = 0;
        proof {
            if exact {
                assert(own0.take(own0.len() as int) =~= own0);
            }
        }
        while j < types.len()
            invariant
                result@.len() >= 1,
                result@[0] == TokenTree::Punct(Punct { ch: '<' }),
                exact == (lifetimes@.len() == 0 && types@.len() == 0),
                exact ==> result@ == seq![TokenTree::Punct(Punct { ch: '<' })]
                    + joined_param_tokens(own0),
            decreases types@.len() - j,
        {
            let ghost pre = result@;
            if j > 0 || lifetimes.len() > 0 || had_own {
                result.punct(',');
            }
            let ghost mid = result@;
            j = j + 1;
            result.ident_str(types[j - 1].as_str());
            proof {
                assert(mid[0] == pre[0]);
                assert(result@.take(mid.len() as int)[0] == mid[0]);
                assert(result@[0] == pre[0]);
            }
        }
        let ghost almost = result@;
        result.punct('>');
        proof {
            if exact {
                assert(result@ =~= seq![TokenTree::Punct(Punct { ch: '<' })]
                    + joined_param_tokens(own0) + seq![TokenTree::Punct(Punct { ch: '>' })]);
            }
            assert(result@[0] == almost[0]);
        }
        result
    }

    /// Render `<...>` with every parameter and its constraints.
    pub fn impl_generics(self) -> (r: StreamBuilder)
        ensures
            r@ == seq![TokenTree::Punct(Punct { ch: '<' })] + joined_param_tokens(self.0@) + seq![
                TokenTree::Punct(Punct { ch: '>' }),
            ],
    {
        let no_lifetimes: Vec<String> = Vec::new();
        let no_types: Vec<String> = Vec::new();
        self.impl_generics_with_additional(&no_lifetimes, &no_types)
    }

    /// Render `<...>` with just the parameter names, as they appear after
    /// the type's name.
    pub fn type_generics(&self) -> (r: StreamBuilder)
        ensures
            r@ == seq![TokenTree::Punct(Punct { ch: '<' })] + joined_type_tokens(self.0@) + seq![
                TokenTree::Punct(Punct { ch: '>' }),
            ],
    {
        let mut result = StreamBuilder::new();
        result.punct('<');
        let n = self.0.len();
        let mut i: usize = 0;
        while i < n
            invariant
                i <= n,
                n == self.0@.len(),
                result@ == seq![TokenTree::Punct(Punct { ch: '<' })] + joined_type_tokens(
                    self.0@.take(i as int),
                ),
            decreases n - i,
        {
            proof {
                assert(self.0@.take(i as int + 1).drop_last() =~= self.0@.take(i as int));
                assert(self.0@.take(i as int + 1).last() == self.0@[i as int]);
            }
            if i > 0 {
                result.punct(',');
            }
            let g = &self.0[i];
            if g.is_lifetime() {
                result.lifetime(g.ident().clone());
            } else {
                result.ident(g.ident().clone());
            }
            i = i + 1;
            proof {
                assert(result@ =~= seq![TokenTree::Punct(Punct { ch: '<' })] + joined_type_tokens(
                    self.0@.take(i as int),
                ));
            }
        }
        proof {
            assert(self.0@.take(n as int) =~= self.0@);
        }
        let ghost almost = result@;
        result.punct('>');
        proof {
            assert(result@ =~= seq![TokenTree::Punct(Punct { ch: '<' })] + joined_type_tokens(
                self.0@,
            ) + seq![TokenTree::Punct(Punct { ch: '>' })]);
        }
        result
    }
}

impl GenericConstraints {
    /// Render this as a `where` clause: the `where` keyword, then the
    /// constraint tokens unchanged.
    pub fn where_clause(self) -> (r: StreamBuilder)
        ensures
            r@.len() == 1 + self.constraints@.len(),
            r@[0] matches TokenTree::Ident(id) && id.name@ == "where"@,
            r@.skip(1) == self.constraints@,
    {
        let mut result = StreamBuilder::new();
        result.ident_str("where");
        result.extend(self.constraints);
        proof {
            assert(result@.skip(1) =~= self.constraints@);
        }
        result
    }

    /// Append the constraint `'new: 'old`, separated by a comma from what is
    /// already there.
    pub fn push_lifetime_dependency(&mut self, new_lt: &str, old_lt: &Ident)
        ensures
            ({
                let sep: nat = if old(self).constraints@.len() > 0 {
                    1
                } else {
                    0
                };
                let base = old(self).constraints@.len() + sep;
                &&& final(self).constraints@.len() == base + 5
                &&& final(self).constraints@.take(old(self).constraints@.len() as int) == old(
                    self,
                ).constraints@
                &&& (sep == 1 ==> final(self).constraints@[old(self).constraints@.len() as int].spec_is_punct(
                    ',',
                ))
                &&& final(self).constraints@[base as int].spec_is_punct('\'')
                &&& (final(self).constraints@[base as int + 1] matches TokenTree::Ident(id)
                    && id.name@ == new_lt@)
                &&& final(self).constraints@[base as int + 2].spec_is_punct(':')
                &&& final(self).constraints@[base as int + 3].spec_is_punct('\'')
                &&& final(self).constraints@[base as int + 4] == TokenTree::Ident(*old_lt)
            }),
    {
        let ghost pre = self.constraints@;
        if self.constraints.len() > 0 {
            self.constraints.push(TokenTree::Punct(Punct { ch: ',' }));
        }
        self.constraints.push(TokenTree::Punct(Punct { ch: '\'' }));
        self.constraints.push(TokenTree::Ident(Ident::new(new_lt.to_owned())));
        self.constraints.push(TokenTree::Punct(Punct { ch: ':' }));
        self.constraints.push(TokenTree::Punct(Punct { ch: '\'' }));
        self.constraints.push(TokenTree::Ident(old_lt.clone()));
        proof {
            assert(self.constraints@.take(pre.len() as int) =~= pre);
        }
    }
}

/// The concatenated tokens of a sequence of builders, in order.
pub open spec fn streams_tokens(bs: Seq<StreamBuilder>) -> Seq<TokenTree>
    decreases bs.len(),
{
    if bs.len() == 0 {
        Seq::empty()
    } else {
        bs[0]@ + streams_tokens(bs.skip(1))
    }
}

pub proof fn lemma_streams_snoc(bs: Seq<StreamBuilder>)
    requires
        bs.len() >= 1,
    ensures
        streams_tokens(bs) == streams_tokens(bs.drop_last()) + bs.last()@,
    decreases bs.len(),
{
    if bs.len() == 1 {
        assert(bs.drop_last() =~= Seq::<StreamBuilder>::empty());
        assert(bs.skip(1) =~= Seq::<StreamBuilder>::empty());
        assert(streams_tokens(bs) =~= streams_tokens(bs.drop_last()) + bs.last()@);
    } else {
        let tail = bs.skip(1);
        lemma_streams_snoc(tail);
        assert(tail.drop_last() =~= bs.drop_last().skip(1));
        assert(tail.last() == bs.last());
        assert(bs.drop_last()[0] == bs[0]);
        assert(streams_tokens(bs) =~= streams_tokens(bs.drop_last()) + bs.last()@);
    }
}

/// The tokens of a sequence of functions: each header followed by its body
/// as a brace group.
pub open spec fn fns_tokens(fs: Seq<(StreamBuilder, StreamBuilder)>) -> Seq<TokenTree>
    decreases fs.len(),
{
    if fs.len() == 0 {
        Seq::empty()
    } else {
        fs[0].0@ + seq![
            TokenTree::Group(Group { delimiter: Delimiter::Brace, stream: fs[0].1.stream }),
        ] + fns_tokens(fs.skip(1))
    }
}

pub proof fn lemma_fns_snoc(fs: Seq<(StreamBuilder, StreamBuilder)>)
    requires
        fs.len() >= 1,
    ensures
        fns_tokens(fs) == fns_tokens(fs.drop_last()) + fs.last().0@ + seq![
            TokenTree::Group(Group { delimiter: Delimiter::Brace, stream: fs.last().1.stream }),
        ],
    decreases fs.len(),
{
    if fs.len() == 1 {
        assert(fs.drop_last() =~= Seq::<(StreamBuilder, StreamBuilder)>::empty());
        assert(fs.skip(1) =~= Seq::<(StreamBuilder, StreamBuilder)>::empty());
        assert(fns_tokens(fs) =~= fns_tokens(fs.drop_last()) + fs.last().0@ + seq![
            TokenTree::Group(Group { delimiter: Delimiter::Brace, stream: fs.last().1.stream }),
        ]);
    } else {
        let tail = fs.skip(1);
        lemma_fns_snoc(tail);
        assert(tail.drop_last() =~= fs.drop_last().skip(1));
        assert(tail.last() == fs.last());
        assert(fs.drop_last()[0] == fs[0]);
        assert(fns_tokens(fs) =~= fns_tokens(fs.drop_last()) + fs.last().0@ + seq![
            TokenTree::Group(Group { delimiter: Delimiter::Brace, stream: fs.last().1.stream }),
        ]);
    }
}

/// A helper for implementing a trait (or inherent items) for a parsed type.
///
/// Collect the pieces with the builder methods, then assemble the whole
/// `impl` block with [`ImplFor::finish`].
#[must_use]
#[derive(Debug)]
pub struct ImplFor {
    pub outer_attr: Vec<StreamBuilder>,
    pub inner_attr: Vec<StreamBuilder>,
    pub ty_name: String,
    pub trait_name: Option<String>,
    pub lifetimes: Option<Vec<String>>,
    pub trait_generics: Option<Vec<String>>,
    pub impl_generics: Vec<String>,
    pub consts: Vec<StreamBuilder>,
    pub constraints: GenericConstraints,
    pub generics: Option<Generics>,
    pub impl_types: Vec<StreamBuilder>,
    pub fns: Vec<(StreamBuilder, StreamBuilder)>,
}

impl ImplFor {
    /// Start an `impl` block for the type called `ty_name`, implementing
    /// `trait_name` if one is given, with the type's parsed generic
    /// parameters and `where` constraints.
    pub fn new(
        ty_name: String,
        trait_name: Option<String>,
        generics: Option<Generics>,
        constraints: Option<GenericConstraints>,
    ) -> (r: ImplFor)
        ensures
            r.ty_name == ty_name,
            r.trait_name == trait_name,
            r.generics == generics,
            r.lifetimes is None,
            r.trait_generics is None,
            r.impl_generics@.len() == 0,
            r.outer_attr@.len() == 0,
            r.inner_attr@.len() == 0,
            r.consts@.len() == 0,
            r.impl_types@.len() == 0,
            r.fns@.len() == 0,
    {
        let constraints = match constraints {
            Some(c) => c,
            None => GenericConstraints { constraints: Vec::new() },
        };
        ImplFor {
            outer_attr: Vec::new(),
            inner_attr: Vec::new(),
            ty_name,
            trait_name,
            lifetimes: None,
            trait_generics: None,
            impl_generics: Vec::new(),
            consts: Vec::new(),
            constraints,
            generics,
            impl_types: Vec::new(),
            fns: Vec::new(),
        }
    }

    /// Add fresh lifetimes to the impl block and the trait.
    pub fn with_lifetimes(self, lifetimes: Vec<String>) -> (r: ImplFor)
        ensures
            r == (ImplFor { lifetimes: Some(lifetimes), ..self }),
    {
        ImplFor { lifetimes: Some(lifetimes), ..self }
    }

    /// Make the lifetimes added by [`ImplFor::with_lifetimes`] depend on
    /// the lifetimes the type already has, by adding a `'new: 'old` clause
    /// for each pair.  Without added lifetimes this has no effect.
    pub fn new_lifetimes_depend_on_existing(self) -> (r: ImplFor)
        ensures
            r == (ImplFor { constraints: r.constraints, ..self }),
            r.constraints.constraints@.take(self.constraints.constraints@.len() as int)
                == self.constraints.constraints@,
            self.lifetimes is None || self.generics is None ==> r == self,
            self.lifetimes matches Some(l) && l@.len() == 0 ==> r == self,
            self.generics matches Some(g) && crate::parse::lifetimes_of(g.0@).len() == 0 ==> r
                == self,
    {
        proof {
            assert(self.constraints.constraints@.take(self.constraints.constraints@.len() as int)
                =~= self.constraints.constraints@);
        }
        let mut this = self;
        let has_both = this.lifetimes.is_some() && this.generics.is_some();
        if !has_both {
            return this;
        }
        let new_lts = match &this.lifetimes {
            Some(l) => l,
            None => {
                return this;
            },
        };
        let gens = match &this.generics {
            Some(g) => g,
            None => {
                return this;
            },
        };
        let ghost orig = self.constraints.constraints@;
        let n = gens.0.len();
        let mut i: usize = 0;
        while i < n
            invariant
                i <= n,
                n == gens.0@.len(),
                self.generics == Some(*gens),
                self.lifetimes == Some(*new_lts),
                this == (ImplFor { constraints: this.constraints, ..self }),
                this.constraints.constraints@.len() >= orig.len(),
                this.constraints.constraints@.take(orig.len() as int) == orig,
                orig == self.constraints.constraints@,
                crate::parse::lifetimes_of(gens.0@.take(i as int)).len() == 0 ==> this.constraints
                    == self.constraints,
                new_lts@.len() == 0 ==> this.constraints == self.constraints,
            decreases n - i,
        {
            proof {
                assert(gens.0@.take(i as int + 1).drop_last() =~= gens.0@.take(i as int));
                assert(gens.0@.take(i as int + 1).last() == gens.0@[i as int]);
            }
            match &gens.0[i] {
                Generic::Lifetime(old_lt) => {
                    let m = new_lts.len();
                    let mut j: usize = 0;
                    while j < m
                        invariant
                            m == new_lts@.len(),
                            this == (ImplFor { constraints: this.constraints, ..self }),
                            this.constraints.constraints@.len() >= orig.len(),
                            this.constraints.constraints@.take(orig.len() as int) == orig,
                            orig == self.constraints.constraints@,
                            new_lts@.len() == 0 ==> this.constraints == self.constraints,
                        decreases m - j,
                    {
                        let ghost pre = this.constraints.constraints@;
                        this.constraints.push_lifetime_dependency(
                            new_lts[j].as_str(),
                            &old_lt.ident,
                        );
                        proof {
                            let now = this.constraints.constraints@;
                            assert(pre.len() >= orig.len());
                            assert forall|x: int| 0 <= x < orig.len() implies now[x] == orig[x] by {
                                assert(now.take(pre.len() as int)[x] == now[x]);
                                assert(pre.take(orig.len() as int)[x] == pre[x]);
                            }
                            assert(now.take(orig.len() as int) =~= orig);
                        }
                        j = j + 1;
                    }
                },
                _ => {},
            }
            i = i + 1;
        }
        proof {
            assert(gens.0@.take(n as int) =~= gens.0@);
        }
        this
    }

    /// Add generic parameters to the trait being implemented.
    pub fn with_trait_generics(self, generics: Vec<String>) -> (r: ImplFor)
        ensures
            r == (ImplFor { trait_generics: Some(generics), ..self }),
    {
        ImplFor { trait_generics: Some(generics), ..self }
    }

    /// Add generic parameters to the impl block itself.
    pub fn with_impl_generics(self, generics: Vec<String>) -> (r: ImplFor)
        ensures
            r == (ImplFor { impl_generics: generics, ..self }),
    {
        ImplFor { impl_generics: generics, ..self }
    }

    /// Add an outer attribute (`#[...]`) to the impl block: a hash sign and
    /// a bracket group holding the lexed attribute.
    pub fn impl_outer_attr(&mut self, attr: &str) -> (r: Result<(), ParseError>)
        ensures
            r is Ok ==> ({
                &&& final(self).outer_attr@.len() == old(self).outer_attr@.len() + 1
                &&& final(self).outer_attr@.drop_last() == old(self).outer_attr@
                &&& final(self).outer_attr@.last()@.len() == 2
                &&& final(self).outer_attr@.last()@[0] == TokenTree::Punct(Punct { ch: '#' })
                &&& (final(self).outer_attr@.last()@[1] matches TokenTree::Group(g) && g.delimiter
                    == Delimiter::Bracket)
            }),
            r is Err ==> *final(self) == *old(self),
    {
        let mut inner = StreamBuilder::new();
        match inner.push_parsed(attr) {
            Ok(()) => {},
            Err(e) => {
                return Err(e);
            },
        }
        let mut builder = StreamBuilder::new();
        builder.punct('#');
        builder.group(Delimiter::Bracket, inner);
        self.outer_attr.push(builder);
        Ok(())
    }

    /// Add an inner attribute (`#!{...}`) to the impl block: a hash sign, a
    /// bang, and a brace group holding the lexed attribute.
    pub fn impl_inner_attr(&mut self, attr: &str) -> (r: Result<(), ParseError>)
        ensures
            r is Ok ==> ({
                &&& final(self).inner_attr@.len() == old(self).inner_attr@.len() + 1
                &&& final(self).inner_attr@.drop_last() == old(self).inner_attr@
                &&& final(self).inner_attr@.last()@.len() == 3
                &&& final(self).inner_attr@.last()@[0] == TokenTree::Punct(Punct { ch: '#' })
                &&& final(self).inner_attr@.last()@[1] == TokenTree::Punct(Punct { ch: '!' })
                &&& (final(self).inner_attr@.last()@[2] matches TokenTree::Group(g) && g.delimiter
                    == Delimiter::Brace)
            }),
            r is Err ==> *final(self) == *old(self),
    {
        let mut inner = StreamBuilder::new();
        match inner.push_parsed(attr) {
            Ok(()) => {},
            Err(e) => {
                return Err(e);
            },
        }
        let mut builder = StreamBuilder::new();
        builder.punct('#');
        builder.punct('!');
        builder.group(Delimiter::Brace, inner);
        self.inner_attr.push(builder);
        Ok(())
    }

    /// Add `const <name>: <ty> = <value>;` to the impl block.
    pub fn generate_const(&mut self, name: &str, ty: &str, value: StreamBuilder) -> (r: Result<
        (),
        ParseError,
    >)
        ensures
            r is Ok ==> ({
                &&& final(self).consts@.len() == old(self).consts@.len() + 1
                &&& final(self).consts@.drop_last() == old(self).consts@
                &&& final(self).consts@.last()@.len() >= 2
                &&& (final(self).consts@.last()@[0] matches TokenTree::Ident(id) && id.name@
                    == "const"@)
                &&& final(self).consts@.last()@.last() == TokenTree::Punct(Punct { ch: ';' })
            }),
            r is Err ==> *final(self) == *old(self),
    {
        let mut builder = StreamBuilder::new();
        builder.ident_str("const");
        let ghost b0 = builder@;
        match builder.push_parsed(name) {
            Ok(()) => {},
            Err(e) => {
                return Err(e);
            },
        }
        proof {
            assert(builder@.take(b0.len() as int)[0] == builder@[0]);
        }
        builder.punct(':');
        let ghost b1 = builder@;
        match builder.push_parsed(ty) {
            Ok(()) => {},
            Err(e) => {
                return Err(e);
            },
        }
        proof {
            assert(builder@.take(b1.len() as int)[0] == builder@[0]);
        }
        builder.punct('=');
        builder.append(value);
        builder.punct(';');
        proof {
            assert(builder@[0] == b0[0]);
        }
        self.consts.push(builder);
        proof {
            assert(self.consts@.drop_last() =~= old(self).consts@);
        }
        Ok(())
    }

    /// Add a function to the impl block: its header, and its body as a
    /// brace group.
    pub fn generate_fn(&mut self, definition: StreamBuilder, body: StreamBuilder)
        ensures
            final(self).fns@ == old(self).fns@.push((definition, body)),
            final(self).outer_attr == old(self).outer_attr,
            final(self).inner_attr == old(self).inner_attr,
            final(self).ty_name == old(self).ty_name,
            final(self).trait_name == old(self).trait_name,
            final(self).generics == old(self).generics,
            final(self).constraints == old(self).constraints,
    {
        self.fns.push((definition, body));
    }

    /// Add `type <name> = <value>;` to the impl block.
    pub fn impl_type(&mut self, name: &str, value: &str) -> (r: Result<(), ParseError>)
        ensures
            r is Ok ==> ({
                &&& final(self).impl_types@.len() == old(self).impl_types@.len() + 1
                &&& final(self).impl_types@.drop_last() == old(self).impl_types@
                &&& final(self).impl_types@.last()@.len() >= 2
                &&& (final(self).impl_types@.last()@[0] matches TokenTree::Ident(id) && id.name@
                    == "type"@)
                &&& final(self).impl_types@.last()@.last() == TokenTree::Punct(Punct { ch: ';' })
            }),
            r is Err ==> *final(self) == *old(self),
    {
        let mut builder = StreamBuilder::new();
        builder.ident_str("type");
        let ghost b0 = builder@;
        match builder.push_parsed(name) {
            Ok(()) => {},
            Err(e) => {
                return Err(e);
            },
        }
        proof {
            assert(builder@.take(b0.len() as int)[0] == builder@[0]);
        }
        builder.punct('=');
        let ghost b1 = builder@;
        match builder.push_parsed(value) {
            Ok(()) => {},
            Err(e) => {
                return Err(e);
            },
        }
        proof {
            assert(builder@.take(b1.len() as int)[0] == builder@[0]);
        }
        builder.punct(';');
        proof {
            assert(builder@[0] == b0[0]);
        }
        self.impl_types.push(builder);
        proof {
            assert(self.impl_types@.drop_last() =~= old(self).impl_types@);
        }
        Ok(())
    }

    /// Exclusive access to the generic constraints of the impl block, to
    /// add bounds beyond those the type declares.
    pub fn modify_generic_constraints(&mut self) -> (r: &mut GenericConstraints)
        ensures
            *r == old(self).constraints,
            final(self).constraints == *final(r),
            final(self).outer_attr == old(self).outer_attr,
            final(self).inner_attr == old(self).inner_attr,
            final(self).ty_name == old(self).ty_name,
            final(self).trait_name == old(self).trait_name,
            final(self).generics == old(self).generics,
            final(self).fns == old(self).fns,
            final(self).consts == old(self).consts,
            final(self).impl_types == old(self).impl_types,
            final(self).lifetimes == old(self).lifetimes,
            final(self).trait_generics == old(self).trait_generics,
            final(self).impl_generics == old(self).impl_generics,
    {
        &mut self.constraints
    }

    /// Append `impl<...> Trait<...> for Type<...> where ...` to `builder`,
    /// consuming the collected header pieces.
    pub fn generate_impl_definition(&mut self, builder: &mut StreamBuilder) -> (r: Result<
        (),
        ParseError,
    >)
        ensures
            r is Ok ==> ({
                &&& final(builder)@.len() > old(builder)@.len()
                &&& final(builder)@.take(old(builder)@.len() as int) == old(builder)@
                &&& (final(builder)@[old(builder)@.len() as int] matches TokenTree::Ident(id)
                    && id.name@ == "impl"@)
            }),
            r is Err ==> *final(builder) == *old(builder),
            final(self).outer_attr == old(self).outer_attr,
            final(self).inner_attr == old(self).inner_attr,
            final(self).impl_types == old(self).impl_types,
            final(self).consts == old(self).consts,
            final(self).fns == old(self).fns,
    {
        let mut head = StreamBuilder::new();
        let r = self.generate_impl_header(&mut head);
        match r {
            Ok(()) => {},
            Err(e) => {
                return Err(e);
            },
        }
        let ghost pre = builder@;
        builder.append(head);
        proof {
            assert(builder@.take(pre.len() as int) =~= pre);
        }
        Ok(())
    }

    /// Build `impl<...> Trait<...> for Type<...> where ...` into `head`,
    /// consuming the collected header pieces.
    fn generate_impl_header(&mut self, builder: &mut StreamBuilder) -> (r: Result<
        (),
        ParseError,
    >)
        requires
            old(builder)@.len() == 0,
        ensures
            r is Ok ==> final(builder)@.len() > 0 && (final(builder)@[0]
                matches TokenTree::Ident(id) && id.name@ == "impl"@),
            final(self).outer_attr == old(self).outer_attr,
            final(self).inner_attr == old(self).inner_attr,
            final(self).impl_types == old(self).impl_types,
            final(self).consts == old(self).consts,
            final(self).fns == old(self).fns,
    {
        builder.ident_str("impl");
        let ghost kw = builder@;
        proof {
            assert(kw[0] matches TokenTree::Ident(id) && id.name@ == "impl"@);
        }
        let type_gens = match &self.generics {
            Some(g) => Some(g.type_generics()),
            None => None,
        };
        let mut generics_slot: Option<Generics> = None;
        core::mem::swap(&mut generics_slot, &mut self.generics);
        let no_extra: Vec<String> = Vec::new();
        let lifetimes_present = self.lifetimes.is_some();
        let lts: &Vec<String> = match &self.lifetimes {
            Some(l) => l,
            None => &no_extra,
        };
        match generics_slot {
            Some(g) => {
                let ghost b0 = builder@;
                builder.append(g.impl_generics_with_additional(lts, &self.impl_generics));
                proof {
                    assert(builder@[0] == b0[0]);
                }
            },
            None => {
                if lifetimes_present || self.impl_generics.len() > 0 {
                    let ghost b0 = builder@;
                    append_lifetimes_and_generics(builder, lts, &self.impl_generics);
                    proof {
                        assert(builder@.take(b0.len() as int)[0] == builder@[0]);
                    }
                }
            },
        }
        let trait_name_present = self.trait_name.is_some();
        match &self.trait_name {
            Some(t) => {
                let ghost b0 = builder@;
                match builder.push_parsed(t.as_str()) {
                    Ok(()) => {
                        proof {
                            assert(builder@.take(b0.len() as int)[0] == builder@[0]);
                        }
                    },
                    Err(e) => {
                        return Err(e);
                    },
                }
            },
            None => {},
        }
        if trait_name_present {
            let no_gens: Vec<String> = Vec::new();
            let tgens: &Vec<String> = match &self.trait_generics {
                Some(g) => g,
                None => &no_gens,
            };
            let ghost b0 = builder@;
            append_lifetimes_and_generics(builder, lts, tgens);
            proof {
                assert(builder@.take(b0.len() as int)[0] == builder@[0]);
            }
            let ghost b1 = builder@;
            builder.ident_str("for");
            proof {
                assert(builder@.take(b1.len() as int)[0] == builder@[0]);
            }
        }
        let ghost b2 = builder@;
        match builder.push_parsed(self.ty_name.as_str()) {
            Ok(()) => {
                proof {
                    assert(builder@.take(b2.len() as int)[0] == builder@[0]);
                }
            },
            Err(e) => {
                return Err(e);
            },
        }
        match type_gens {
            Some(tg) => {
                let ghost b3 = builder@;
                builder.append(tg);
                proof {
                    assert(builder@[0] == b3[0]);
                }
            },
            None => {},
        }
        if self.constraints.constraints.len() > 0 {
            let mut constraints_slot = GenericConstraints { constraints: Vec::new() };
            core::mem::swap(&mut constraints_slot, &mut self.constraints);
            let ghost b4 = builder@;
            builder.append(constraints_slot.where_clause());
            proof {
                assert(builder@[0] == b4[0]);
            }
        }
        Ok(())
    }

    /// Assemble the whole `impl` block: outer attributes, the impl header,
    /// and a brace group with the inner attributes, associated types,
    /// consts, and functions.
    pub fn finish(self) -> (r: Result<StreamBuilder, ParseError>)
        ensures
            r matches Ok(out) ==> ({
                let head = streams_tokens(self.outer_attr@);
                &&& out@.len() > head.len() + 1
                &&& out@.take(head.len() as int) == head
                &&& (out@[head.len() as int] matches TokenTree::Ident(id) && id.name@ == "impl"@)
                &&& (out@.last() matches TokenTree::Group(g) && g.delimiter == Delimiter::Brace
                    && g.stream@ == streams_tokens(self.inner_attr@) + streams_tokens(
                    self.impl_types@,
                ) + streams_tokens(self.consts@) + fns_tokens(self.fns@))
            }),
    {
        let mut this = self;
        let mut builder = StreamBuilder::new();
        let mut outer = Vec::new();
        core::mem::swap(&mut outer, &mut this.outer_attr);
        let ghost outer0 = outer@;
        proof {
            assert(outer0.take(0) =~= Seq::<StreamBuilder>::empty());
            assert(builder@ =~= streams_tokens(outer0.take(0)));
        }
        while outer.len() > 0
            invariant
                outer@.len() <= outer0.len(),
                outer@ == outer0.skip((outer0.len() - outer@.len()) as int),
                builder@ == streams_tokens(outer0.take((outer0.len() - outer@.len()) as int)),
            decreases outer@.len(),
        {
            let ghost k = (outer0.len() - outer@.len()) as int;
            let attr = outer.remove(0);
            proof {
                assert(outer0.take(k + 1).drop_last() =~= outer0.take(k));
                assert(outer0.take(k + 1).last() == outer0[k]);
                assert(attr == outer0[k]);
                assert(outer@ =~= outer0.skip(k + 1));
                lemma_streams_snoc(outer0.take(k + 1));
            }
            builder.append(attr);
        }
        proof {
            assert(outer0.take(outer0.len() as int) =~= outer0);
            assert(builder@ == streams_tokens(self.outer_attr@));
        }
        let ghost head_done = builder@;
        match this.generate_impl_definition(&mut builder) {
            Ok(()) => {},
            Err(e) => {
                return Err(e);
            },
        }
        let ghost with_header = builder@;
        let mut body = StreamBuilder::new();
        let mut inner = this.inner_attr;
        let ghost inner0 = inner@;
        proof {
            assert(inner0.take(0) =~= Seq::<StreamBuilder>::empty());
            assert(body@ =~= streams_tokens(inner0.take(0)));
        }
        while inner.len() > 0
            invariant
                inner@.len() <= inner0.len(),
                inner@ == inner0.skip((inner0.len() - inner@.len()) as int),
                body@ == streams_tokens(inner0.take((inner0.len() - inner@.len()) as int)),
            decreases inner@.len(),
        {
            let ghost k = (inner0.len() - inner@.len()) as int;
            let attr = inner.remove(0);
            proof {
                assert(inner0.take(k + 1).drop_last() =~= inner0.take(k));
                assert(inner0.take(k + 1).last() == inner0[k]);
                assert(attr == inner0[k]);
                assert(inner@ =~= inner0.skip(k + 1));
                lemma_streams_snoc(inner0.take(k + 1));
            }
            body.append(attr);
        }
        proof {
            assert(inner0.take(inner0.len() as int) =~= inner0);
        }
        let ghost body1 = body@;
        let mut types = this.impl_types;
        let ghost types0 = types@;
        proof {
            assert(types0.take(0) =~= Seq::<StreamBuilder>::empty());
            assert(body@ =~= body1 + streams_tokens(types0.take(0)));
        }
        while types.len() > 0
            invariant
                types@.len() <= types0.len(),
                types@ == types0.skip((types0.len() - types@.len()) as int),
                body@ == body1 + streams_tokens(types0.take((types0.len() - types@.len()) as int)),
            decreases types@.len(),
        {
            let ghost k = (types0.len() - types@.len()) as int;
            let ty = types.remove(0);
            proof {
                assert(types0.take(k + 1).drop_last() =~= types0.take(k));
                assert(types0.take(k + 1).last() == types0[k]);
                assert(ty == types0[k]);
                assert(types@ =~= types0.skip(k + 1));
                lemma_streams_snoc(types0.take(k + 1));
            }
            body.append(ty);
        }
        proof {
            assert(types0.take(types0.len() as int) =~= types0);
        }
        let ghost body2 = body@;
        let mut consts = this.consts;
        let ghost consts0 = consts@;
        proof {
            assert(consts0.take(0) =~= Seq::<StreamBuilder>::empty());
            assert(body@ =~= body2 + streams_tokens(consts0.take(0)));
        }
        while consts.len() > 0
            invariant
                consts@.len() <= consts0.len(),
                consts@ == consts0.skip((consts0.len() - consts@.len()) as int),
                body@ == body2 + streams_tokens(
                    consts0.take((consts0.len() - consts@.len()) as int),
                ),
            decreases consts@.len(),
        {
            let ghost k = (consts0.len() - consts@.len()) as int;
            let c = consts.remove(0);
            proof {
                assert(consts0.take(k + 1).drop_last() =~= consts0.take(k));
                assert(consts0.take(k + 1).last() == consts0[k]);
                assert(c == consts0[k]);
                assert(consts@ =~= consts0.skip(k + 1));
                lemma_streams_snoc(consts0.take(k + 1));
            }
            body.append(c);
        }
        proof {
            assert(consts0.take(consts0.len() as int) =~= consts0);
        }
        let ghost body3 = body@;
        let mut fns = this.fns;
        let ghost fns0 = fns@;
        proof {
            assert(fns0.take(0) =~= Seq::<(StreamBuilder, StreamBuilder)>::empty());
            assert(body@ =~= body3 + fns_tokens(fns0.take(0)));
        }
        while fns.len() > 0
            invariant
                fns@.len() <= fns0.len(),
                fns@ == fns0.skip((fns0.len() - fns@.len()) as int),
                body@ == body3 + fns_tokens(fns0.take((fns0.len() - fns@.len()) as int)),
            decreases fns@.len(),
        {
            let ghost k = (fns0.len() - fns@.len()) as int;
            let (def, fn_body) = fns.remove(0);
            proof {
                assert(fns0.take(k + 1).drop_last() =~= fns0.take(k));
                assert(fns0.take(k + 1).last() == fns0[k]);
                assert((def, fn_body) == fns0[k]);
                assert(fns@ =~= fns0.skip(k + 1));
                lemma_fns_snoc(fns0.take(k + 1));
            }
            body.append(def);
            body.group(Delimiter::Brace, fn_body);
        }
        proof {
            assert(fns0.take(fns0.len() as int) =~= fns0);
            assert(body@ == streams_tokens(self.inner_attr@) + streams_tokens(self.impl_types@)
                + streams_tokens(self.consts@) + fns_tokens(self.fns@));
        }
        builder.group(Delimiter::Brace, body);
        proof {
            assert(builder@.take(head_done.len() as int) =~= head_done);
        }
        Ok(builder)
    }
}

} // verus!
