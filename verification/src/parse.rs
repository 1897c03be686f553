//! A parser over the token stream.  Currently only the scaffolding: it
//! owns a lexer over the buffer it was given, and is consumed by callers
//! as the stream's downstream stage.

use vstd::prelude::*;
use crate::lex::Lexer;

verus! {

pub struct Parser<'de> {
    pub whole: &'de str,
    pub lexer: Lexer<'de>,
}

impl<'de> Parser<'de> {
    pub fn new(input: &'de str) -> (p: Self)
        ensures
            p.whole@ == input@,
            p.lexer.src() == input@,
            p.lexer.cursor() == 0,
    {
        Parser { whole: input, lexer: Lexer::new(input) }
    }
}

} // verus!
