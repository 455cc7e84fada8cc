//! The surface form of an observer's parameter list: a comma-separated
//! run of names, each optionally preceded by `&` to mark a by-reference
//! parameter. The front end hands the list over as plain tokens; parsing
//! them is the one piece of the surface syntax with behaviour of its own.

use vstd::prelude::*;
use crate::node::ParamRef;

verus! {

/// One token of a parameter list.
#[derive(Debug)]
pub enum Tok {
    /// A separator; it carries no meaning of its own.
    Comma,
    /// Marks the next name as taken by reference.
    Amp,
    /// A parameter name.
    Ident(String),
}

/// Whether a by-reference mark is pending after the first `k` tokens: an
/// `&` raises it, a name consumes it, a comma leaves it alone.
pub open spec fn ref_pending(toks: Seq<Tok>, k: int) -> bool
    decreases k,
{
    if k <= 0 {
        false
    } else {
        match toks[k - 1] {
            Tok::Comma => ref_pending(toks, k - 1),
            Tok::Amp => true,
            Tok::Ident(_) => false,
        }
    }
}

/// The parameters the first `k` tokens declare: each name in order,
/// marked by-reference exactly when an `&` directly precedes it (commas
/// in between notwithstanding).
pub open spec fn parsed_params(toks: Seq<Tok>, k: int) -> Seq<(Seq<char>, bool)>
    decreases k,
{
    if k <= 0 {
        Seq::empty()
    } else {
        match toks[k - 1] {
            Tok::Ident(name) => parsed_params(toks, k - 1).push((name@, ref_pending(toks, k - 1))),
            _ => parsed_params(toks, k - 1),
        }
    }
}

/// The parameters a whole token list declares.
pub open spec fn parse_params_spec(toks: Seq<Tok>) -> Seq<(Seq<char>, bool)> {
    parsed_params(toks, toks.len() as int)
}

/// The parsed list carries exactly these names and by-reference marks,
/// in this order.
pub open spec fn params_match(r: Seq<ParamRef>, s: Seq<(Seq<char>, bool)>) -> bool {
    &&& r.len() == s.len()
    &&& forall|k: int|
        0 <= k < r.len() ==> #[trigger] r[k].name@ == s[k].0 && r[k].by_reference == s[k].1
}

/// Parses an observer's parameter list from its tokens.
pub fn parse_params(toks: &Vec<Tok>) -> (r: Vec<ParamRef>)
    ensures
        params_match(r@, parse_params_spec(toks@)),
{
    let mut out: Vec<ParamRef> = Vec::new();
    let mut is_ref = false;
    let mut k: usize = 0;
    while k < toks.len()
        invariant
            k <= toks@.len(),
            is_ref == ref_pending(toks@, k as int),
            params_match(out@, parsed_params(toks@, k as int)),
        decreases toks@.len() - k,
    {
        let ghost pre = out@;
        match &toks[k] {
            Tok::Comma => {
                proof {
                    assert(parsed_params(toks@, k as int + 1) == parsed_params(toks@, k as int));
                    assert(ref_pending(toks@, k as int + 1) == ref_pending(toks@, k as int));
                }
            },
            Tok::Amp => {
                is_ref = true;
                proof {
                    assert(parsed_params(toks@, k as int + 1) == parsed_params(toks@, k as int));
                    assert(ref_pending(toks@, k as int + 1));
                }
            },
            Tok::Ident(name) => {
                let nm = name.clone();
                proof {
                    assert(nm@ == name@);
                }
                out.push(ParamRef { name: nm, by_reference: is_ref });
                is_ref = false;
                proof {
                    let sp0 = parsed_params(toks@, k as int);
                    let sp1 = parsed_params(toks@, k as int + 1);
                    assert(sp1 == sp0.push((name@, ref_pending(toks@, k as int))));
                    assert(!ref_pending(toks@, k as int + 1));
                    assert(params_match(out@, sp1)) by {
                        assert forall|t: int| 0 <= t < out@.len() implies #[trigger] out@[t].name@
                            == sp1[t].0 && out@[t].by_reference == sp1[t].1 by {
                            if t < pre.len() {
                                assert(out@[t] == pre[t]);
                                assert(pre[t].name@ == sp0[t].0);
                                assert(pre[t].by_reference == sp0[t].1);
                                assert(sp1[t] == sp0[t]);
                            } else {
                                assert(t == pre.len());
                                assert(sp0.len() == pre.len());
                                assert(sp1[t] == (name@, ref_pending(toks@, k as int)));
                                assert(out@[t].name@ == name@);
                                assert(out@[t].by_reference == ref_pending(toks@, k as int));
                            }
                        };
                    };
                }
            },
        }
        k += 1;
    }
    proof {
        assert(parsed_params(toks@, toks@.len() as int) == parse_params_spec(toks@));
    }
    out
}

} // verus!
