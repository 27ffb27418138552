//! Where a parser gets its tokens.

use vstd::prelude::*;

use crate::lexer::scanning::{all_well_formed, lemma_tokens_well_formed, scan, tokens_from};
use crate::lexer::{Lexer, SpecToken, Token};

verus! {

/// Something that gives tokens one at a time, such as a scanner.
pub trait TokenSource<'a> {
    /// The tokens that are still to come.
    spec fn remaining(&self) -> Seq<SpecToken>;

    /// The tokens that are still to come are all well formed.
    proof fn lemma_remaining_well_formed(&self)
        ensures
            all_well_formed(self.remaining()),
    ;

    /// Takes the next token, or gives `None` where none is left.
    fn next_token(&mut self) -> (tok: Option<Token<'a>>)
        ensures
            old(self).remaining().len() == 0 ==> tok is None && final(self).remaining().len() == 0,
            old(self).remaining().len() > 0 ==> (tok matches Some(t) && t@ == old(
                self,
            ).remaining().first()),
            old(self).remaining().len() > 0 ==> final(self).remaining() == old(
                self,
            ).remaining().drop_first(),
    ;
}

impl<'a> TokenSource<'a> for Lexer<'a> {
    open spec fn remaining(&self) -> Seq<SpecToken> {
        tokens_from(self.source(), self.offset())
    }

    proof fn lemma_remaining_well_formed(&self) {
        if 0 <= self.offset() <= self.source().len() {
            lemma_tokens_well_formed(self.source(), self.offset());
        }
    }

    fn next_token(&mut self) -> (tok: Option<Token<'a>>) {
        let tok = self.next();
        proof {
            let ts = tokens_from(old(self).source(), old(self).offset());
            match scan(old(self).source(), old(self).offset()) {
                Some((t, end)) => {
                    assert(ts.drop_first() =~= tokens_from(old(self).source(), end));
                },
                None => {},
            }
        }
        tok
    }
}

} // verus!
