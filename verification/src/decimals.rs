//! Decimal literals: the lexer keeps each one as the text it was written
//! with; the host reads that text as an IEEE-754 double and hands back its
//! bit pattern, which replaces the text in the tokens.
use vstd::prelude::*;
use crate::ast::Loc;
use crate::lexer::tokens_view;
use crate::strmap::StrMap;
use crate::tokens::{Literal, LiteralView, Token, TokenView};

verus! {

/// The texts of the decimal literals among the tokens, in order.
pub open spec fn decimal_texts_of(ts: Seq<(TokenView, Loc)>) -> Seq<Seq<char>>
    decreases ts.len(),
{
    if ts.len() == 0 {
        Seq::empty()
    } else {
        let rest = decimal_texts_of(ts.drop_last());
        match ts.last().0 {
            TokenView::DcmlText(s) => rest.push(s),
            _ => rest,
        }
    }
}

/// Every decimal literal among the tokens has bits in `dv`.
pub open spec fn decimals_known(ts: Seq<(TokenView, Loc)>, dv: Map<Seq<char>, u64>) -> bool {
    forall|i: int|
        0 <= i < ts.len() ==> ((#[trigger] ts[i]).0 matches TokenView::DcmlText(s) ==> dv.contains_key(s))
}

/// A token with a decimal literal's text replaced by the literal with its
/// bits from `dv`.
pub open spec fn resolve_token(t: TokenView, dv: Map<Seq<char>, u64>) -> TokenView {
    match t {
        TokenView::DcmlText(s) => TokenView::Lit(LiteralView::Dcml(dv[s])),
        _ => t,
    }
}

/// The tokens with each decimal literal's text replaced by its bits.
pub open spec fn resolved(ts: Seq<(TokenView, Loc)>, dv: Map<Seq<char>, u64>) -> Seq<(TokenView, Loc)> {
    ts.map_values(|p: (TokenView, Loc)| (resolve_token(p.0, dv), p.1))
}

/// The texts of the decimal literals among the tokens, in order.
pub fn decimal_texts(toks: &Vec<(Token, Loc)>) -> (r: Vec<String>)
    ensures
        r@.map_values(|s: String| s@) == decimal_texts_of(tokens_view(toks@)),
{
    let ghost tv = tokens_view(toks@);
    let mut out: Vec<String> = Vec::new();
    let mut i: usize = 0;
    proof {
        assert(tv.take(0) =~= Seq::<(TokenView, Loc)>::empty());
        assert(out@.map_values(|s: String| s@) =~= Seq::<Seq<char>>::empty());
    }
    while i < toks.len()
        invariant
            i <= toks@.len(),
            tv == tokens_view(toks@),
            out@.map_values(|s: String| s@) == decimal_texts_of(tv.take(i as int)),
        decreases toks@.len() - i,
    {
        proof {
            assert(tv.take(i + 1).drop_last() =~= tv.take(i as int));
            assert(tv.take(i + 1).last() == tv[i as int]);
            assert(tv[i as int].0 == toks@[i as int].0@);
        }
        let ghost before = out@;
        match &toks[i].0 {
            Token::DcmlText(s) => {
                out.push(s.clone());
                proof {
                    assert(out@.map_values(|s: String| s@) =~= before.map_values(|s: String| s@).push(
                        s@,
                    ));
                }
            },
            _ => {},
        }
        i = i + 1;
    }
    proof {
        assert(tv.take(toks@.len() as int) =~= tv);
    }
    out
}

/// The tokens with each decimal literal's text replaced by the literal with
/// the bits that `decimals` gives its text; `None` where a text has none.
pub fn resolve_decimals(toks: &Vec<(Token, Loc)>, decimals: &StrMap<u64>) -> (r: Option<
    Vec<(Token, Loc)>,
>)
    ensures
        match r {
            None => !decimals_known(tokens_view(toks@), decimals.view()),
            Some(v) => decimals_known(tokens_view(toks@), decimals.view()) && tokens_view(v@)
                == resolved(tokens_view(toks@), decimals.view()),
        },
{
    let ghost tv = tokens_view(toks@);
    let ghost dv = decimals.view();
    let mut out: Vec<(Token, Loc)> = Vec::new();
    let mut i: usize = 0;
    while i < toks.len()
        invariant
            i <= toks@.len(),
            tv == tokens_view(toks@),
            dv == decimals.view(),
            out@.len() == i,
            forall|j: int| 0 <= j < i ==> ((#[trigger] tv[j]).0 matches TokenView::DcmlText(s)
                ==> dv.contains_key(s)),
            forall|j: int| 0 <= j < i ==> #[trigger] tokens_view(out@)[j] == resolved(tv, dv)[j],
        decreases toks@.len() - i,
    {
        let loc = toks[i].1;
        proof {
            assert(tv[i as int] == (toks@[i as int].0@, toks@[i as int].1));
        }
        let tok = match &toks[i].0 {
            Token::DcmlText(s) => match decimals.get(s) {
                None => {
                    return None;
                },
                Some(b) => Token::Lit(Literal::Dcml(*b)),
            },
            other => other.duplicate(),
        };
        let ghost before = out@;
        out.push((tok, loc));
        proof {
            assert forall|j: int| 0 <= j < i + 1 implies #[trigger] tokens_view(out@)[j] == resolved(
                tv,
                dv,
            )[j] by {
                if j < i {
                    assert(out@[j] == before[j]);
                    assert(tokens_view(before)[j] == resolved(tv, dv)[j]);
                }
            }
        }
        i = i + 1;
    }
    proof {
        assert(tokens_view(out@) =~= resolved(tv, dv));
    }
    Some(out)
}

} // verus!
