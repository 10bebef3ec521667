//! The status route's handler core: parse the specifier, select one
//! candidate by weighted sampling, and build that code's response
//! shape; any invalid specifier is answered with the fixed rejection
//! response.

use vstd::prelude::*;

use crate::builder::{build, build_shape, invalid_response, invalid_shape};
use crate::request::RequestContext;
use crate::response::ResponseShape;
use crate::sampling::{
    checked_total, lemma_single_candidate_selected, select, selected_index, total_weight,
};
use crate::specifier::{
    code_value, find, is_digit, lemma_code_value_range, lemma_find_is_first,
    lemma_spec_candidates_wf, parse, spec_candidates, valid_code_token, Candidate, WEIGHT_ONE,
};

verus! {

/// Answers a status specifier: an invalid specifier — or one whose
/// total weight overflows a machine word — is rejected with the fixed
/// `400` shape, and a valid one is answered with the mandated shape of
/// one of its candidates, selected by weighted sampling.
pub fn respond_status(specifier: &str, req: &RequestContext) -> (r: ResponseShape)
    ensures
        spec_candidates(specifier@) is None ==> r@ == invalid_shape(),
        (spec_candidates(specifier@) matches Some(cs) && total_weight(cs) <= u64::MAX)
            ==> exists|i: int|
                0 <= i < spec_candidates(specifier@).unwrap().len() && r@ == build_shape(
                    (#[trigger] spec_candidates(specifier@).unwrap()[i]).code as int,
                ),
        (spec_candidates(specifier@) matches Some(cs) && total_weight(cs) > u64::MAX)
            ==> r@ == invalid_shape(),
{
    match parse(specifier) {
        Err(_) => invalid_response(),
        Ok(cands) => {
            proof {
                lemma_spec_candidates_wf(specifier@);
            }
            match checked_total(&cands) {
                None => invalid_response(),
                Some(_total) => {
                    let code = select(&cands);
                    let r = build(code, req);
                    proof {
                        let cs = spec_candidates(specifier@).unwrap();
                        let i = choose|i: int| 0 <= i < cs.len() && code == (#[trigger] cs[i]).code;
                        assert(r@ == build_shape(cs[i].code as int));
                    }
                    r
                },
            }
        },
    }
}

/// A specifier that is a single valid code token parses to exactly
/// that code with the default weight, and every draw selects it: the
/// code is answered with certainty.
pub proof fn lemma_single_code_specifier(s: Seq<char>, draw: int)
    requires
        valid_code_token(s),
        0 <= draw,
        draw < total_weight(spec_candidates(s).unwrap()),
    ensures
        spec_candidates(s) == Some(
            seq![Candidate { code: code_value(s) as u16, weight: WEIGHT_ONE }],
        ),
        selected_index(spec_candidates(s).unwrap(), draw) == 0,
        spec_candidates(s).unwrap()[0].code as int == code_value(s),
{
    assert(forall|j: int| 0 <= j < 3 ==> is_digit(s[j]) && s[j] != ',') by {
        assert(forall|j: int| 0 <= j < 3 ==> is_digit(s[j]));
        assert(',' as int == 44);
        assert(forall|j: int| 0 <= j < 3 ==> is_digit(s[j]) ==> s[j] as int >= 48);
    }
    lemma_find_is_first(s, ',', 3);
    assert(find(s, ',') == s.len());
    let cs = spec_candidates(s).unwrap();
    assert(cs == seq![Candidate { code: code_value(s) as u16, weight: WEIGHT_ONE }]);
    lemma_code_value_range(s);
    assert(cs[0].wf());
    assert(crate::sampling::positive_weights(cs));
    lemma_single_candidate_selected(cs, draw);
}

} // verus!
