//! A token, identified by the address derived from its validity predicate.
use crate::constants::PoseidonConstants;
use crate::field::Fe;
use crate::matrix::vec_wf;
use vstd::prelude::*;

verus! {

/// A token; `token_vp` is the encoding of its validity predicate as field elements.
#[derive(Clone, Debug)]
pub struct Token {
    pub token_vp: Vec<Fe>,
}

impl Token {
    pub fn new(token_vp: Vec<Fe>) -> (r: Token)
        ensures
            r.token_vp@ == token_vp@,
    {
        Token { token_vp }
    }

    /// The address: the width-3 Poseidon hash of the first two field elements
    /// of the validity predicate; `None` when it has fewer than two.
    pub fn address(&self, params: &PoseidonConstants) -> (r: Option<Fe>)
        requires
            params.wf(),
            params.width == 3,
            vec_wf(self.token_vp@),
        ensures
            r.is_some() <==> self.token_vp@.len() >= 2,
            r matches Some(x) ==> x.wf() && x.val() == params.hash_spec(
                seq![self.token_vp@[0].val(), self.token_vp@[1].val()],
            ),
    {
        if self.token_vp.len() < 2 {
            return None;
        }
        Some(params.hash_two(&self.token_vp[0], &self.token_vp[1]))
    }
}

} // verus!
