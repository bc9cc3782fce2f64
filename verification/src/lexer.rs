use crate::token::Token;
use crate::token::is_op;
use crate::token::spec_token_of;
use vstd::prelude::*;
use vstd::string::StringSliceAdditionalSpecFns;

verus! {

/// One more operation folded onto a run-length token sequence: when the
/// sequence ends in a run of the same kind that run grows by one, otherwise
/// a new run of count one opens.
pub open spec fn rle_push(ts: Seq<Token>, t: Token) -> Seq<Token> {
    if ts.len() > 0 && ts.last().same_kind(t) {
        ts.update(ts.len() - 1, ts.last().with_count((ts.last().count() + 1) as usize))
    } else {
        ts.push(t)
    }
}

/// The run-length token sequence of a byte sequence: operation bytes are
/// folded left to right, comment bytes contribute nothing and do not close
/// the run being accumulated.
pub open spec fn tokens_of(s: Seq<u8>) -> Seq<Token>
    decreases s.len(),
{
    if s.len() == 0 {
        Seq::empty()
    } else {
        match spec_token_of(s.last()) {
            Some(t) => rle_push(tokens_of(s.drop_last()), t),
            None => tokens_of(s.drop_last()),
        }
    }
}

/// The rendered forms of the tokens, concatenated: the canonical comment-free
/// text of the run lengths.
pub open spec fn rendered(ts: Seq<Token>) -> Seq<char>
    decreases ts.len(),
{
    if ts.len() == 0 {
        Seq::empty()
    } else {
        rendered(ts.drop_last()) + ts.last().spec_render()
    }
}

/// The scanner producing the run-length token sequence of a source text.
pub struct Lexer {}

impl Lexer {
    /// Scans the source left to right and collects its operations into
    /// run-length tokens; bytes that are no operation are skipped as
    /// comments. No bracket validity is checked here.
    pub fn tokenize(input: &str) -> (r: Vec<Token>)
        ensures
            r@ == tokens_of(input.spec_bytes()),
    {
        let bytes = input.as_bytes();
        let mut tokens: Vec<Token> = Vec::new();
        let mut index: usize = 0;
        while index < bytes.len()
            invariant
                index <= bytes@.len(),
                tokens@ == tokens_of(bytes@.take(index as int)),
                forall|i: int| 0 <= i < tokens@.len() ==> (#[trigger] tokens@[i]).count() <= index,
            decreases bytes@.len() - index,
        {
            let ghost prefix = bytes@.take(index as int);
            let b = bytes[index];
            match Token::from_byte(b) {
                None => {},
                Some(t) => {
                    let n = tokens.len();
                    let mut merged = false;
                    if n > 0 {
                        let last = tokens[n - 1];
                        if last == t {
                            let mut grown = last;
                            let count = grown.inner();
                            *count = *count + 1;
                            tokens[n - 1] = grown;
                            merged = true;
                        }
                    }
                    if !merged {
                        tokens.push(t);
                    }
                    proof {
                        assert(t.count() == 1);
                    }
                },
            }
            index = index + 1;
            proof {
                let stepped = bytes@.take(index as int);
                assert(stepped.drop_last() =~= prefix);
                assert(stepped.last() == b);
            }
        }
        proof {
            assert(bytes@.take(index as int) =~= bytes@);
        }
        tokens
    }
}

/// The run lengths are genuine: every token of a tokenized source carries a
/// positive repeat count, no count exceeds the source length, and there are
/// no more tokens than source bytes (fewer, whenever runs merged or
/// comments were skipped).
pub proof fn lemma_tokens_of_counts(s: Seq<u8>)
    requires
        s.len() <= usize::MAX,
    ensures
        tokens_of(s).len() <= s.len(),
        forall|i: int|
            0 <= i < tokens_of(s).len() ==> 1 <= (#[trigger] tokens_of(s)[i]).count() <= s.len(),
    decreases s.len(),
{
    if s.len() == 0 {
    } else {
        let pre = s.drop_last();
        lemma_tokens_of_counts(pre);
        let ts = tokens_of(pre);
        match spec_token_of(s.last()) {
            Some(t) => {
                assert(t.count() == 1);
                if ts.len() > 0 && ts.last().same_kind(t) {
                    assert(ts.last().count() <= pre.len());
                }
            },
            None => {},
        }
    }
}

/// There are never more tokens than recognized operation bytes: comment
/// bytes contribute nothing at all, and runs only merge.
pub proof fn lemma_tokens_no_more_than_ops(s: Seq<u8>)
    requires
        s.len() <= usize::MAX,
    ensures
        tokens_of(s).len() <= s.filter(|b: u8| is_op(b)).len(),
{
    lemma_tokens_ignore_comments(s);
    s.lemma_filter_len(|b: u8| is_op(b));
    lemma_tokens_of_counts(s.filter(|b: u8| is_op(b)));
}

/// Tokenizing is a function of the source bytes alone: two sources with the
/// same bytes tokenize to the same sequence, so tokenizing twice yields
/// identical sequences.
pub proof fn lemma_tokenize_deterministic(s1: Seq<u8>, s2: Seq<u8>)
    requires
        s1 == s2,
    ensures
        tokens_of(s1) == tokens_of(s2),
{
}

/// Comment bytes contribute nothing: a source tokenizes exactly as its
/// comment-free form does, so the run lengths come out of the operation
/// bytes alone.
pub proof fn lemma_tokens_ignore_comments(s: Seq<u8>)
    ensures
        tokens_of(s) == tokens_of(s.filter(|b: u8| is_op(b))),
    decreases s.len(),
{
    reveal(Seq::filter);
    let pred = |b: u8| is_op(b);
    if s.len() == 0 {
    } else {
        let pre = s.drop_last();
        lemma_tokens_ignore_comments(pre);
        if is_op(s.last()) {
            assert(s.filter(pred) == pre.filter(pred).push(s.last()));
            assert(s.filter(pred).drop_last() =~= pre.filter(pred));
            assert(s.filter(pred).last() == s.last());
        } else {
            assert(s.filter(pred) == pre.filter(pred));
        }
    }
}

/// Concatenating the rendered form of each token reconstructs the canonical
/// comment-free text of the run lengths: the rendering of a source's tokens
/// is exactly the rendering of the tokens of its comment-free form.
pub proof fn lemma_rendered_reconstructs_canonical(s: Seq<u8>)
    ensures
        rendered(tokens_of(s)) == rendered(tokens_of(s.filter(|b: u8| is_op(b)))),
{
    lemma_tokens_ignore_comments(s);
}

} // verus!
